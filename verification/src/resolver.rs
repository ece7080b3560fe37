//! Spec resolution over an in-memory inventory: `latest`, alias names
//! (followed through chains, cycle-guarded), and version specs by field
//! count (one field: newest in the major line; two: newest in the minor line;
//! three or more: numeric equality).
//!
//! The alias table is a list of (name, target) pairs; a later pair for the
//! same name replaces an earlier one, as building a map from them would.
use vstd::prelude::*;
use vstd::string::*;

use crate::domain::{same_bundle, same_companion, Bundle, Pin};
use crate::error::CoreError;
use crate::ports::{ResolveVia, Resolved};
use crate::text::{str_eq, string_of, trim, trim_str};
use crate::version::{
    field_at, has_prefix, has_prefix_exec, lemma_version_eq_iff_padded_fields, lemma_version_order_antisymmetric,
    lemma_version_order_reflexive, lemma_version_order_transitive, version_fields,
    version_order, Version,
};

verus! {

/// The alias pairs by their text.
pub open spec fn pairs_view(v: Seq<(String, String)>) -> Seq<(Seq<char>, Seq<char>)> {
    Seq::new(v.len(), |i: int| (v[i].0@, v[i].1@))
}

/// The alias map the pairs build: a later pair for a name wins.
pub open spec fn alias_map(p: Seq<(Seq<char>, Seq<char>)>) -> Map<Seq<char>, Seq<char>>
    decreases p.len(),
{
    if p.len() == 0 {
        Map::empty()
    } else {
        alias_map(p.drop_last()).insert(p.last().0, p.last().1)
    }
}

pub open spec fn alias_keys(p: Seq<(Seq<char>, Seq<char>)>) -> Seq<Seq<char>> {
    Seq::new(p.len(), |i: int| p[i].0)
}

/// Where following the alias map `n` times from `s` leads (a name with no
/// alias stays put).
pub open spec fn alias_step(m: Map<Seq<char>, Seq<char>>, s: Seq<char>, n: nat) -> Seq<char>
    decreases n,
{
    if n == 0 {
        s
    } else {
        let p = alias_step(m, s, (n - 1) as nat);
        if m.dom().contains(p) {
            m[p]
        } else {
            p
        }
    }
}

/// The first `n` names of the chain from `s` are all aliases, no two alike.
pub open spec fn chain_ok(m: Map<Seq<char>, Seq<char>>, s: Seq<char>, n: nat) -> bool {
    &&& forall|k: nat| k < n ==> m.dom().contains(#[trigger] alias_step(m, s, k))
    &&& forall|a: nat, b: nat|
        a < b < n ==> #[trigger] alias_step(m, s, a) != #[trigger] alias_step(m, s, b)
}

/// Following aliases from `s` ends, without repeating a name, at `t`, which
/// is not an alias.
pub open spec fn expands_to(m: Map<Seq<char>, Seq<char>>, s: Seq<char>, t: Seq<char>) -> bool {
    exists|n: nat|
        #[trigger] chain_ok(m, s, n) && !m.dom().contains(alias_step(m, s, n)) && t
            == alias_step(m, s, n)
}

/// Following aliases from `s` comes back to a name already passed.
pub open spec fn alias_cycles(m: Map<Seq<char>, Seq<char>>, s: Seq<char>) -> bool {
    exists|n: nat, k: nat|
        #![trigger chain_ok(m, s, n), alias_step(m, s, k)]
        chain_ok(m, s, n) && k < n && alias_step(m, s, k) == alias_step(m, s, n)
}

/// The version fields of the installed bundles, in order.
pub open spec fn bundle_fields(bs: Seq<Bundle>) -> Seq<Seq<u32>> {
    Seq::new(bs.len(), |i: int| bs[i].toolkit.version.fields@)
}

/// `vs[k]` begins with `p` and no version beginning with `p` is newer.
pub open spec fn is_newest_with_prefix(vs: Seq<Seq<u32>>, p: Seq<u32>, k: int) -> bool {
    &&& 0 <= k < vs.len()
    &&& has_prefix(vs[k], p)
    &&& forall|j: int|
        0 <= j < vs.len() && #[trigger] has_prefix(vs[j], p) ==> version_order(vs[j], vs[k]) <= 0
}

/// `i` is the first index whose version numerically equals `target`.
pub open spec fn first_equal(vs: Seq<Seq<u32>>, target: Seq<u32>, i: int) -> bool {
    &&& 0 <= i < vs.len()
    &&& version_order(vs[i], target) == 0
    &&& forall|j: int| 0 <= j < i ==> version_order(#[trigger] vs[j], target) != 0
}

/// The installed index a non-alias spec `s` picks: for `latest` and for a
/// one- or two-field spec, the first installed version equal to the newest
/// match; for a spec of three or more fields, the first installed version
/// equal to it.
pub open spec fn picks(vs: Seq<Seq<u32>>, s: Seq<char>, i: int) -> bool {
    if s == "latest"@ {
        exists|k: int| #[trigger]
            is_newest_with_prefix(vs, Seq::<u32>::empty(), k) && first_equal(vs, vs[k], i)
    } else {
        match version_fields(s) {
            None => false,
            Some(f) => if f.len() >= 3 {
                first_equal(vs, f, i)
            } else {
                exists|k: int| #[trigger] is_newest_with_prefix(vs, f, k) && first_equal(vs, vs[k], i)
            },
        }
    }
}

/// The rule a non-alias spec resolves by.
pub open spec fn plain_via(s: Seq<char>) -> ResolveVia {
    if s == "latest"@ {
        ResolveVia::Latest
    } else {
        match version_fields(s) {
            Some(f) => if f.len() == 1 {
                ResolveVia::Major
            } else if f.len() == 2 {
                ResolveVia::Minor
            } else {
                ResolveVia::Exact
            },
            None => ResolveVia::Exact,
        }
    }
}

/// `s` names an alias (`latest` never does).
pub open spec fn is_alias_spec(m: Map<Seq<char>, Seq<char>>, s: Seq<char>) -> bool {
    s != "latest"@ && m.dom().contains(s)
}

/// `t` is the spec `s` comes down to: its alias expansion, or `s` itself.
pub open spec fn target_of(m: Map<Seq<char>, Seq<char>>, s: Seq<char>, t: Seq<char>) -> bool {
    if is_alias_spec(m, s) {
        expands_to(m, s, t)
    } else {
        t == s
    }
}

/// The rule spec `s` resolves by.
pub open spec fn via_of(m: Map<Seq<char>, Seq<char>>, s: Seq<char>) -> ResolveVia {
    if is_alias_spec(m, s) {
        ResolveVia::Alias
    } else {
        plain_via(s)
    }
}

/// `b` is (a copy of) the bundle spec `s` resolves to.
pub open spec fn resolves_to(bs: Seq<Bundle>, m: Map<Seq<char>, Seq<char>>, s: Seq<char>, b: Bundle) -> bool {
    exists|t: Seq<char>, i: int|
        #[trigger] target_of(m, s, t) && #[trigger] picks(bundle_fields(bs), t, i) && same_bundle(
            b,
            bs[i],
        )
}

/// `e` is the error resolving `s` fails with: an alias cycle (named by `s`),
/// or `NotInstalled` naming the spec `s` comes down to when nothing installed
/// matches it.
pub open spec fn resolve_fails(
    bs: Seq<Bundle>,
    m: Map<Seq<char>, Seq<char>>,
    s: Seq<char>,
    e: CoreError,
) -> bool {
    match e {
        CoreError::AliasCycle(n) => is_alias_spec(m, s) && alias_cycles(m, s) && n@ == s,
        CoreError::NotInstalled { spec: n } => target_of(m, s, n@) && !(exists|i: int|
            #[trigger] picks(bundle_fields(bs), n@, i)),
        _ => false,
    }
}

/// The pin a pin file's contents give: the trimmed text, unless it is blank.
pub open spec fn pin_spec(contents: Seq<char>) -> Option<Seq<char>> {
    if trim(contents).len() == 0 {
        None
    } else {
        Some(trim(contents))
    }
}

/// Spec resolution via an in-memory inventory of installed bundles and alias
/// pairs.
pub struct MemResolver {
    installed: Vec<Bundle>,
    aliases: Vec<(String, String)>,
}

/// A distinct list of names, all of them alias keys, is no longer than the
/// alias list.
proof fn lemma_distinct_keys_bound(s: Seq<Seq<char>>, keys: Seq<Seq<char>>)
    requires
        s.no_duplicates(),
        forall|i: int| 0 <= i < s.len() ==> keys.contains(#[trigger] s[i]),
    ensures
        s.len() <= keys.len(),
{
    s.unique_seq_to_set();
    keys.lemma_cardinality_of_set();
    assert(s.to_set().subset_of(keys.to_set())) by {
        assert forall|x: Seq<char>| s.to_set().contains(x) implies keys.to_set().contains(x) by {
            let i = choose|i: int| 0 <= i < s.len() && s[i] == x;
            assert(keys.contains(s[i]));
        }
    }
    vstd::seq_lib::seq_to_set_is_finite(keys);
    vstd::set_lib::lemma_len_subset(s.to_set(), keys.to_set());
}

/// Every alias name is one of the pairs' names.
proof fn lemma_alias_dom(p: Seq<(Seq<char>, Seq<char>)>, k: Seq<char>)
    requires
        alias_map(p).dom().contains(k),
    ensures
        alias_keys(p).contains(k),
    decreases p.len(),
{
    if p.last().0 == k {
        assert(alias_keys(p)[p.len() - 1] == k);
    } else {
        lemma_alias_dom(p.drop_last(), k);
        let i = choose|i: int| 0 <= i < alias_keys(p.drop_last()).len() && alias_keys(p.drop_last())[i] == k;
        assert(alias_keys(p)[i] == k);
    }
}

/// Resolution is deterministic: a spec picks at most one installed index.
pub proof fn lemma_picks_unique(vs: Seq<Seq<u32>>, s: Seq<char>, i1: int, i2: int)
    requires
        picks(vs, s, i1),
        picks(vs, s, i2),
    ensures
        i1 == i2,
{
    let (target1, target2) = if s == "latest"@ {
        let k1 = choose|k: int| #[trigger]
            is_newest_with_prefix(vs, Seq::<u32>::empty(), k) && first_equal(vs, vs[k], i1);
        let k2 = choose|k: int| #[trigger]
            is_newest_with_prefix(vs, Seq::<u32>::empty(), k) && first_equal(vs, vs[k], i2);
        (vs[k1], vs[k2])
    } else {
        let f = version_fields(s).unwrap();
        if f.len() >= 3 {
            (f, f)
        } else {
            let k1 = choose|k: int| #[trigger] is_newest_with_prefix(vs, f, k) && first_equal(vs, vs[k], i1);
            let k2 = choose|k: int| #[trigger] is_newest_with_prefix(vs, f, k) && first_equal(vs, vs[k], i2);
            (vs[k1], vs[k2])
        }
    };
    // The two targets are equal numerically: each is at most the other.
    assert(version_order(target1, target2) == 0) by {
        if s == "latest"@ || version_fields(s).unwrap().len() < 3 {
            lemma_version_order_antisymmetric(target1, target2);
        } else {
            lemma_version_order_reflexive(target1);
        }
    }
    // Equality to one target is equality to the other.
    assert forall|j: int| 0 <= j < vs.len() implies (version_order(vs[j], target1) == 0 <==> version_order(
        vs[j],
        target2,
    ) == 0) by {
        lemma_version_order_antisymmetric(target1, target2);
        lemma_version_order_antisymmetric(vs[j], target1);
        lemma_version_order_antisymmetric(vs[j], target2);
        if version_order(vs[j], target1) == 0 {
            lemma_version_order_transitive(vs[j], target1, target2);
            lemma_version_order_transitive(target2, target1, vs[j]);
        }
        if version_order(vs[j], target2) == 0 {
            lemma_version_order_transitive(vs[j], target2, target1);
            lemma_version_order_transitive(target1, target2, vs[j]);
        }
    }
    if i1 < i2 {
        assert(version_order(vs[i1], target2) != 0);
    } else if i2 < i1 {
        assert(version_order(vs[i2], target1) != 0);
    }
}

/// A one- or two-field spec stays in its line: the version it resolves to
/// agrees with the spec on every field the spec gives (so `12` never selects
/// a 13.x toolkit).
pub proof fn lemma_spec_stays_in_line(vs: Seq<Seq<u32>>, s: Seq<char>, i: int)
    requires
        picks(vs, s, i),
        s != "latest"@,
        version_fields(s) is Some,
        version_fields(s).unwrap().len() <= 2,
    ensures
        forall|j: int|
            0 <= j < version_fields(s).unwrap().len() ==> field_at(vs[i], j) == #[trigger] version_fields(
                s,
            ).unwrap()[j],
{
    let f = version_fields(s).unwrap();
    let k = choose|k: int| #[trigger] is_newest_with_prefix(vs, f, k) && first_equal(vs, vs[k], i);
    lemma_version_eq_iff_padded_fields(vs[i], vs[k]);
    assert forall|j: int| 0 <= j < f.len() implies field_at(vs[i], j) == #[trigger] f[j] by {
        assert(field_at(vs[i], j) == field_at(vs[k], j));
        assert(vs[k].subrange(0, f.len() as int)[j] == f[j]);
    }
}

/// An exact spec (three or more fields) resolves to a version numerically
/// equal to it.
pub proof fn lemma_exact_spec_matches(vs: Seq<Seq<u32>>, s: Seq<char>, i: int)
    requires
        picks(vs, s, i),
        s != "latest"@,
        version_fields(s) is Some,
        version_fields(s).unwrap().len() >= 3,
    ensures
        version_order(vs[i], version_fields(s).unwrap()) == 0,
{
}

/// Alias expansion is deterministic: a name expands to at most one spec, and
/// never both expands and cycles. What it expands to is never an alias.
pub proof fn lemma_expansion_deterministic(
    m: Map<Seq<char>, Seq<char>>,
    s: Seq<char>,
    t1: Seq<char>,
    t2: Seq<char>,
)
    ensures
        expands_to(m, s, t1) ==> !m.dom().contains(t1),
        expands_to(m, s, t1) && expands_to(m, s, t2) ==> t1 == t2,
        !(expands_to(m, s, t1) && alias_cycles(m, s)),
{
    if expands_to(m, s, t1) && expands_to(m, s, t2) {
        let n1 = choose|n: nat|
            #[trigger] chain_ok(m, s, n) && !m.dom().contains(alias_step(m, s, n)) && t1
                == alias_step(m, s, n);
        let n2 = choose|n: nat|
            #[trigger] chain_ok(m, s, n) && !m.dom().contains(alias_step(m, s, n)) && t2
                == alias_step(m, s, n);
        if n1 < n2 {
            assert(m.dom().contains(alias_step(m, s, n1)));
        } else if n2 < n1 {
            assert(m.dom().contains(alias_step(m, s, n2)));
        }
    }
    if expands_to(m, s, t1) && alias_cycles(m, s) {
        let n1 = choose|n: nat|
            #[trigger] chain_ok(m, s, n) && !m.dom().contains(alias_step(m, s, n)) && t1
                == alias_step(m, s, n);
        let (n2, k) = choose|n: nat, k: nat|
            #![trigger chain_ok(m, s, n), alias_step(m, s, k)]
            chain_ok(m, s, n) && k < n && alias_step(m, s, k) == alias_step(m, s, n);
        if n1 < n2 {
            assert(m.dom().contains(alias_step(m, s, n1)));
        } else if n2 < n1 {
            assert(alias_step(m, s, k) != alias_step(m, s, n2));
        } else {
            assert(m.dom().contains(alias_step(m, s, k)));
        }
    }
}

/// Two copies of one bundle are copies of each other.
proof fn lemma_same_bundle_shared(a: Bundle, b: Bundle, x: Bundle)
    requires
        same_bundle(a, x),
        same_bundle(b, x),
    ensures
        same_bundle(a, b),
{
    assert forall|i: int| 0 <= i < a.extra@.len() implies #[trigger] same_companion(
        a.extra@[i],
        b.extra@[i],
    ) by {
        assert(same_companion(a.extra@[i], x.extra@[i]));
        assert(same_companion(b.extra@[i], x.extra@[i]));
    }
}

/// An alias resolves to the same bundle as the spec it expands to.
pub proof fn lemma_alias_resolves_as_expansion(
    bs: Seq<Bundle>,
    m: Map<Seq<char>, Seq<char>>,
    a: Seq<char>,
    t: Seq<char>,
    b1: Bundle,
    b2: Bundle,
)
    requires
        is_alias_spec(m, a),
        expands_to(m, a, t),
        resolves_to(bs, m, a, b1),
        resolves_to(bs, m, t, b2),
    ensures
        same_bundle(b1, b2),
{
    let vs = bundle_fields(bs);
    let (t1, i1) = choose|t1: Seq<char>, i: int|
        #[trigger] target_of(m, a, t1) && #[trigger] picks(vs, t1, i) && same_bundle(b1, bs[i]);
    let (t2, i2) = choose|t2: Seq<char>, i: int|
        #[trigger] target_of(m, t, t2) && #[trigger] picks(vs, t2, i) && same_bundle(b2, bs[i]);
    lemma_expansion_deterministic(m, a, t, t1);
    assert(t1 == t);
    assert(!is_alias_spec(m, t));
    assert(t2 == t);
    lemma_picks_unique(vs, t, i1, i2);
    lemma_same_bundle_shared(b1, b2, bs[i1]);
}

/// The pin a pin file's contents give, with the file it was read from:
/// `None` for a blank or whitespace-only file.
pub fn pin_from_contents(contents: &str, file: &str) -> (r: Option<Pin>)
    ensures
        match r {
            Some(p) => pin_spec(contents@) == Some(p.spec@) && p.file@ == file@,
            None => pin_spec(contents@) is None,
        },
{
    let spec = trim_str(contents);
    if spec.unicode_len() == 0 {
        None
    } else {
        Some(Pin { spec, file: string_of(file) })
    }
}

impl MemResolver {
    /// The installed bundles.
    pub closed spec fn bundles(&self) -> Seq<Bundle> {
        self.installed@
    }

    /// The alias map.
    pub closed spec fn aliases(&self) -> Map<Seq<char>, Seq<char>> {
        alias_map(pairs_view(self.aliases@))
    }

    /// A resolver over a snapshot of the installed bundles and alias pairs.
    pub fn new(installed: Vec<Bundle>, aliases: Vec<(String, String)>) -> (r: Self)
        ensures
            r.bundles() == installed@,
            r.aliases() == alias_map(pairs_view(aliases@)),
    {
        MemResolver { installed, aliases }
    }

    /// The target of alias `name`, if it is one.
    fn lookup_alias(&self, name: &str) -> (r: Option<&String>)
        ensures
            match r {
                Some(t) => self.aliases().dom().contains(name@) && self.aliases()[name@] == t@,
                None => !self.aliases().dom().contains(name@),
            },
    {
        let ghost p = pairs_view(self.aliases@);
        let mut found: Option<usize> = None;
        let mut i: usize = 0;
        while i < self.aliases.len()
            invariant
                i <= self.aliases@.len(),
                p == pairs_view(self.aliases@),
                match found {
                    Some(k) => k < i && alias_map(p.take(i as int)).dom().contains(name@)
                        && alias_map(p.take(i as int))[name@] == self.aliases@[k as int].1@,
                    None => !alias_map(p.take(i as int)).dom().contains(name@),
                },
            decreases self.aliases.len() - i,
        {
            assert(p.take(i + 1).drop_last() =~= p.take(i as int));
            if str_eq(self.aliases[i].0.as_str(), name) {
                found = Some(i);
            }
            i = i + 1;
        }
        assert(p.take(self.aliases@.len() as int) =~= p);
        match found {
            Some(k) => Some(&self.aliases[k].1),
            None => None,
        }
    }

    /// Where the chain of aliases from `name` ends: the first name that is not
    /// an alias. Fails with [`CoreError::AliasCycle`] naming `name` when the
    /// chain comes back to a name it has passed.
    pub fn expand_alias(&self, name: &str) -> (r: Result<String, CoreError>)
        ensures
            match r {
                Ok(t) => expands_to(self.aliases(), name@, t@),
                Err(CoreError::AliasCycle(n)) => alias_cycles(self.aliases(), name@) && n@
                    == name@,
                Err(_) => false,
            },
    {
        let ghost m = self.aliases();
        let ghost keys = alias_keys(pairs_view(self.aliases@));
        let mut seen: Vec<String> = Vec::new();
        let mut cur = string_of(name);
        assert(chain_ok(m, name@, 0));
        loop
            invariant
                m == self.aliases(),
                keys == alias_keys(pairs_view(self.aliases@)),
                keys.len() == self.aliases@.len(),
                seen@.len() <= self.aliases@.len(),
                chain_ok(m, name@, seen@.len() as nat),
                forall|k: int| 0 <= k < seen@.len() ==> #[trigger] seen@[k]@ == alias_step(m, name@, k as nat),
                cur@ == alias_step(m, name@, seen@.len() as nat),
            decreases self.aliases@.len() - seen@.len(),
        {
            let ghost n = seen@.len() as nat;
            // Has the chain come back to a name it passed?
            let mut j: usize = 0;
            while j < seen.len()
                invariant
                    j <= seen@.len(),
                    forall|k: int| 0 <= k < j ==> seen@[k]@ != cur@,
                    m == self.aliases(),
                    n == seen@.len(),
                    chain_ok(m, name@, n),
                    forall|k: int| 0 <= k < seen@.len() ==> #[trigger] seen@[k]@ == alias_step(m, name@, k as nat),
                    cur@ == alias_step(m, name@, n),
                decreases seen.len() - j,
            {
                if str_eq(seen[j].as_str(), cur.as_str()) {
                    proof {
                        assert(alias_step(m, name@, j as nat) == alias_step(m, name@, n));
                        assert(chain_ok(m, name@, n));
                    }
                    return Err(CoreError::AliasCycle(string_of(name)));
                }
                j = j + 1;
            }
            match self.lookup_alias(cur.as_str()) {
                Some(next) => {
                    let next = next.clone();
                    proof {
                        assert forall|a: nat, b: nat| a < b < n + 1 implies #[trigger] alias_step(
                            m,
                            name@,
                            a,
                        ) != #[trigger] alias_step(m, name@, b) by {
                            if b == n {
                                assert(seen@[a as int]@ == alias_step(m, name@, a));
                            }
                        }
                        assert(chain_ok(m, name@, n + 1));
                        // The names passed so far are distinct aliases, so
                        // there are no more of them than alias pairs.
                        let passed = Seq::new(n + 1, |k: int| alias_step(m, name@, k as nat));
                        assert forall|k: int| 0 <= k < passed.len() implies keys.contains(
                            #[trigger] passed[k],
                        ) by {
                            lemma_alias_dom(pairs_view(self.aliases@), passed[k]);
                        }
                        assert(passed.no_duplicates()) by {
                            assert forall|a: int, b: int|
                                0 <= a < passed.len() && 0 <= b < passed.len() && a != b implies passed[a]
                                != passed[b] by {
                                if a < b {
                                    assert(alias_step(m, name@, a as nat) != alias_step(m, name@, b as nat));
                                } else {
                                    assert(alias_step(m, name@, b as nat) != alias_step(m, name@, a as nat));
                                }
                            }
                        }
                        lemma_distinct_keys_bound(passed, keys);
                    }
                    let ghost old_seen = seen@;
                    seen.push(cur);
                    cur = next;
                    proof {
                        assert forall|k: int| 0 <= k < seen@.len() implies #[trigger] seen@[k]@
                            == alias_step(m, name@, k as nat) by {
                            if k < n {
                                assert(seen@[k] == old_seen[k]);
                            }
                        }
                    }
                },
                None => {
                    proof {
                        assert(chain_ok(m, name@, n));
                    }
                    return Ok(cur);
                },
            }
        }
    }

    /// The first installed index whose version numerically equals `target`.
    fn first_equal_to(&self, target: &Version) -> (r: Option<usize>)
        ensures
            match r {
                Some(i) => first_equal(bundle_fields(self.installed@), target.fields@, i as int),
                None => forall|j: int|
                    0 <= j < self.installed@.len() ==> version_order(
                        #[trigger] bundle_fields(self.installed@)[j],
                        target.fields@,
                    ) != 0,
            },
    {
        let ghost vs = bundle_fields(self.installed@);
        let mut i: usize = 0;
        while i < self.installed.len()
            invariant
                i <= self.installed@.len(),
                vs == bundle_fields(self.installed@),
                forall|j: int| 0 <= j < i ==> version_order(#[trigger] vs[j], target.fields@) != 0,
            decreases self.installed.len() - i,
        {
            if self.installed[i].toolkit.version.compare_to(target) == 0 {
                return Some(i);
            }
            i = i + 1;
        }
        None
    }

    /// The first installed index holding a newest version that begins with
    /// `prefix`.
    fn newest_with_prefix(&self, prefix: &Vec<u32>) -> (r: Option<usize>)
        ensures
            match r {
                Some(k) => is_newest_with_prefix(bundle_fields(self.installed@), prefix@, k as int),
                None => forall|j: int|
                    0 <= j < self.installed@.len() ==> !#[trigger] has_prefix(
                        bundle_fields(self.installed@)[j],
                        prefix@,
                    ),
            },
    {
        let ghost vs = bundle_fields(self.installed@);
        let mut best: Option<usize> = None;
        let mut i: usize = 0;
        while i < self.installed.len()
            invariant
                i <= self.installed@.len(),
                vs == bundle_fields(self.installed@),
                match best {
                    None => forall|j: int| 0 <= j < i ==> !#[trigger] has_prefix(vs[j], prefix@),
                    Some(b) => {
                        &&& b < i
                        &&& has_prefix(vs[b as int], prefix@)
                        &&& forall|j: int|
                            0 <= j < i && #[trigger] has_prefix(vs[j], prefix@) ==> version_order(
                                vs[j],
                                vs[b as int],
                            ) <= 0
                    },
                },
            decreases self.installed.len() - i,
        {
            let v = &self.installed[i].toolkit.version;
            if has_prefix_exec(&v.fields, prefix) {
                let replace = match best {
                    Some(b) => v.compare_to(&self.installed[b].toolkit.version) > 0,
                    None => true,
                };
                if replace {
                    proof {
                        lemma_version_order_reflexive(vs[i as int]);
                        if let Some(b) = best {
                            lemma_version_order_antisymmetric(vs[i as int], vs[b as int]);
                            assert forall|j: int|
                                0 <= j < i && #[trigger] has_prefix(vs[j], prefix@) implies version_order(
                                vs[j],
                                vs[i as int],
                            ) <= 0 by {
                                lemma_version_order_transitive(vs[j], vs[b as int], vs[i as int]);
                            }
                        }
                    }
                    best = Some(i);
                }
            }
            i = i + 1;
        }
        best
    }

    /// The first installed index equal to the newest version beginning with
    /// `prefix`.
    fn pick_newest(&self, prefix: &Vec<u32>) -> (r: Option<usize>)
        ensures
            match r {
                Some(i) => exists|k: int| #[trigger]
                    is_newest_with_prefix(bundle_fields(self.installed@), prefix@, k)
                        && first_equal(bundle_fields(self.installed@), bundle_fields(self.installed@)[k], i as int),
                None => !exists|k: int| #[trigger]
                    is_newest_with_prefix(bundle_fields(self.installed@), prefix@, k),
            },
    {
        let ghost vs = bundle_fields(self.installed@);
        match self.newest_with_prefix(prefix) {
            Some(k) => {
                let found = self.first_equal_to(&self.installed[k].toolkit.version);
                proof {
                    lemma_version_order_reflexive(vs[k as int]);
                }
                match found {
                    Some(i) => {
                        assert(is_newest_with_prefix(vs, prefix@, k as int));
                        Some(i)
                    },
                    None => {
                        assert(version_order(vs[k as int], vs[k as int]) != 0);
                        None
                    },
                }
            },
            None => None,
        }
    }

    /// Resolve a spec that is not an alias name: `latest`, or a version spec
    /// by field count. Returns the installed index and the rule used.
    fn resolve_plain(&self, spec: &str) -> (r: Result<(usize, ResolveVia), CoreError>)
        ensures
            match r {
                Ok((i, via)) => picks(bundle_fields(self.installed@), spec@, i as int) && via
                    == plain_via(spec@),
                Err(CoreError::NotInstalled { spec: n }) => n@ == spec@ && !(exists|i: int|
                    #[trigger] picks(bundle_fields(self.installed@), spec@, i)),
                Err(_) => false,
            },
    {
        let ghost vs = bundle_fields(self.installed@);
        if str_eq(spec, "latest") {
            let empty: Vec<u32> = Vec::new();
            assert(empty@ =~= Seq::<u32>::empty());
            return match self.pick_newest(&empty) {
                Some(i) => Ok((i, ResolveVia::Latest)),
                None => Err(CoreError::NotInstalled { spec: string_of(spec) }),
            };
        }
        let parsed = match Version::parse(spec) {
            Ok(v) => v,
            Err(_) => {
                return Err(CoreError::NotInstalled { spec: string_of(spec) });
            },
        };
        let n = parsed.fields.len();
        let via = if n == 1 {
            ResolveVia::Major
        } else if n == 2 {
            ResolveVia::Minor
        } else {
            ResolveVia::Exact
        };
        let chosen = if n >= 3 {
            self.first_equal_to(&parsed)
        } else {
            self.pick_newest(&parsed.fields)
        };
        match chosen {
            Some(i) => Ok((i, via)),
            None => {
                proof {
                    if n >= 3 {
                        assert forall|i: int| !#[trigger] picks(vs, spec@, i) by {
                            if picks(vs, spec@, i) {
                                assert(version_order(vs[i], parsed.fields@) == 0);
                            }
                        }
                    }
                }
                Err(CoreError::NotInstalled { spec: string_of(spec) })
            },
        }
    }

    /// Resolve a version spec to an installed bundle: `latest` is the global
    /// newest; an alias name is expanded (through chains) and its target
    /// resolved; otherwise one field selects the newest in that major line,
    /// two the newest in that minor line, and three or more need numeric
    /// equality.
    pub fn resolve(&self, spec: &str) -> (r: Result<Resolved, CoreError>)
        ensures
            match r {
                Ok(res) => res.spec@ == spec@ && res.pin is None && res.via == via_of(
                    self.aliases(),
                    spec@,
                ) && resolves_to(self.bundles(), self.aliases(), spec@, res.bundle),
                Err(e) => resolve_fails(self.bundles(), self.aliases(), spec@, e),
            },
    {
        let ghost vs = bundle_fields(self.installed@);
        let ghost m = self.aliases();
        if !str_eq(spec, "latest") && self.lookup_alias(spec).is_some() {
            let target = match self.expand_alias(spec) {
                Ok(t) => t,
                Err(e) => {
                    return Err(e);
                },
            };
            proof {
                lemma_expansion_deterministic(m, spec@, target@, target@);
            }
            return match self.resolve_plain(target.as_str()) {
                Ok((i, _)) => {
                    let res = Resolved {
                        bundle: self.installed[i].copy(),
                        spec: string_of(spec),
                        via: ResolveVia::Alias,
                        pin: None,
                    };
                    assert(target_of(m, spec@, target@));
                    assert(picks(vs, target@, i as int));
                    Ok(res)
                },
                Err(e) => {
                    proof {
                        assert(target_of(m, spec@, target@));
                    }
                    Err(e)
                },
            };
        }
        match self.resolve_plain(spec) {
            Ok((i, via)) => {
                let res = Resolved {
                    bundle: self.installed[i].copy(),
                    spec: string_of(spec),
                    via,
                    pin: None,
                };
                assert(target_of(m, spec@, spec@));
                assert(picks(vs, spec@, i as int));
                Ok(res)
            },
            Err(e) => {
                proof {
                    assert(target_of(m, spec@, spec@));
                }
                Err(e)
            },
        }
    }

    /// Resolution from a directory's context, once its pin file (if any) has
    /// been found: the pin's spec resolved by `PinFile`, or without a pin the
    /// `default` alias resolved by `Default`, or nothing.
    pub fn resolve_pinned(&self, pin: Option<Pin>) -> (r: Result<Option<Resolved>, CoreError>)
        ensures
            match pin {
                Some(p) => match r {
                    Ok(Some(res)) => res.spec@ == p.spec@ && res.via == ResolveVia::PinFile
                        && res.pin == Some(p) && resolves_to(
                        self.bundles(),
                        self.aliases(),
                        p.spec@,
                        res.bundle,
                    ),
                    Ok(None) => false,
                    Err(e) => resolve_fails(self.bundles(), self.aliases(), p.spec@, e),
                },
                None => if self.aliases().dom().contains("default"@) {
                    match r {
                        Ok(Some(res)) => res.spec@ == "default"@ && res.via == ResolveVia::Default
                            && res.pin is None && resolves_to(
                            self.bundles(),
                            self.aliases(),
                            "default"@,
                            res.bundle,
                        ),
                        Ok(None) => false,
                        Err(e) => resolve_fails(self.bundles(), self.aliases(), "default"@, e),
                    }
                } else {
                    r == Ok::<Option<Resolved>, CoreError>(None)
                },
            },
    {
        match pin {
            Some(p) => match self.resolve(p.spec.as_str()) {
                Ok(res) => Ok(Some(Resolved { via: ResolveVia::PinFile, pin: Some(p), ..res })),
                Err(e) => Err(e),
            },
            None => {
                if self.lookup_alias("default").is_some() {
                    match self.resolve("default") {
                        Ok(res) => Ok(Some(Resolved { via: ResolveVia::Default, ..res })),
                        Err(e) => Err(e),
                    }
                } else {
                    Ok(None)
                }
            },
        }
    }
}

} // verus!
