//! Picking the newest of a list of versions among those a selection admits;
//! among equal newest ones the last counts (as `Iterator::max` has it).
use vstd::prelude::*;

use crate::text::{
    chars_eq, decimal, parts_view, split, split_chars, str_chars, str_eq, u32_decimal,
};
use crate::version::{
    has_prefix, has_prefix_exec, lemma_version_order_antisymmetric,
    lemma_version_order_reflexive, lemma_version_order_transitive, version_fields, version_order,
    Version,
};

verus! {

/// The fields of each version, in order.
pub open spec fn fields_of(av: Seq<Version>) -> Seq<Seq<u32>> {
    Seq::new(av.len(), |i: int| av[i].fields@)
}

/// `vs[i]` is selected, no selected version is newer, and every later
/// selected version is older.
pub open spec fn is_last_newest(vs: Seq<Seq<u32>>, sel: Seq<bool>, i: int) -> bool {
    &&& 0 <= i < vs.len()
    &&& sel[i]
    &&& forall|j: int| 0 <= j < vs.len() && #[trigger] sel[j] ==> version_order(vs[j], vs[i]) <= 0
    &&& forall|j: int| i < j < vs.len() && #[trigger] sel[j] ==> version_order(vs[j], vs[i]) < 0
}

/// The index of the last newest selected version, or `None` when the
/// selection is empty.
pub fn last_newest(av: &[Version], sel: &Vec<bool>) -> (r: Option<usize>)
    requires
        sel@.len() == av@.len(),
    ensures
        match r {
            Some(i) => is_last_newest(fields_of(av@), sel@, i as int),
            None => forall|j: int| 0 <= j < av@.len() ==> !#[trigger] sel@[j],
        },
{
    let ghost vs = fields_of(av@);
    let mut best: Option<usize> = None;
    let mut i: usize = 0;
    while i < av.len()
        invariant
            i <= av@.len(),
            sel@.len() == av@.len(),
            vs == fields_of(av@),
            match best {
                None => forall|j: int| 0 <= j < i ==> !#[trigger] sel@[j],
                Some(b) => {
                    &&& b < i
                    &&& sel@[b as int]
                    &&& forall|j: int|
                        0 <= j < i && #[trigger] sel@[j] ==> version_order(vs[j], vs[b as int])
                            <= 0
                    &&& forall|j: int|
                        b < j < i && #[trigger] sel@[j] ==> version_order(vs[j], vs[b as int]) < 0
                },
            },
        decreases av.len() - i,
    {
        if sel[i] {
            let replace = match best {
                Some(b) => av[i].compare_to(&av[b]) >= 0,
                None => true,
            };
            if replace {
                proof {
                    lemma_version_order_reflexive(vs[i as int]);
                    if let Some(b) = best {
                        lemma_version_order_antisymmetric(vs[i as int], vs[b as int]);
                        assert forall|j: int|
                            0 <= j < i && #[trigger] sel@[j] implies version_order(
                            vs[j],
                            vs[i as int],
                        ) <= 0 by {
                            lemma_version_order_transitive(vs[j], vs[b as int], vs[i as int]);
                        }
                    }
                }
                best = Some(i);
            }
        }
        i = i + 1;
    }
    best
}

/// Which listed versions a pick spec admits: all of them for `latest`, those
/// beginning with the spec's fields otherwise; `None` when the spec is
/// neither `latest` nor a version.
pub open spec fn listed_selection(av: Seq<Version>, spec: Seq<char>) -> Option<Seq<bool>> {
    if spec == "latest"@ {
        Some(Seq::new(av.len(), |j: int| true))
    } else {
        match version_fields(spec) {
            None => None,
            Some(w) => Some(Seq::new(av.len(), |j: int| has_prefix(av[j].fields@, w))),
        }
    }
}

/// `r` is what picking `spec` from `av` gives: the last newest of the
/// versions the spec admits (a copy of it), or `None` when the spec is not
/// `latest` or a version, or admits none.
pub open spec fn listed_pick(av: Seq<Version>, spec: Seq<char>, r: Option<Version>) -> bool {
    match r {
        Some(v) => listed_selection(av, spec) is Some && exists|i: int|
            #[trigger] is_last_newest(fields_of(av), listed_selection(av, spec).unwrap(), i)
                && v.fields@ == av[i].fields@ && v.raw@ == av[i].raw@,
        None => match listed_selection(av, spec) {
            None => true,
            Some(sel) => forall|j: int| 0 <= j < av.len() ==> !#[trigger] sel[j],
        },
    }
}

/// A selection has at most one last newest version.
pub proof fn lemma_last_newest_unique(vs: Seq<Seq<u32>>, sel: Seq<bool>, i: int, k: int)
    requires
        is_last_newest(vs, sel, i),
        is_last_newest(vs, sel, k),
    ensures
        i == k,
{
    lemma_version_order_antisymmetric(vs[i], vs[k]);
    assert(sel[i] && sel[k]);
}

/// The version (fields and text) that picking `spec` from `av` gives: the
/// last newest of the versions the spec admits, or `None` when the spec is
/// not `latest` or a version, or admits none.
pub open spec fn listed_pick_view(av: Seq<Version>, spec: Seq<char>) -> Option<
    (Seq<u32>, Seq<char>),
> {
    match listed_selection(av, spec) {
        None => None,
        Some(sel) => if exists|i: int| is_last_newest(fields_of(av), sel, i) {
            let i = choose|i: int| is_last_newest(fields_of(av), sel, i);
            Some((av[i].fields@, av[i].raw@))
        } else {
            None
        },
    }
}

/// A pick that meets `listed_pick` is the one `listed_pick_view` names.
pub proof fn lemma_listed_pick_view(av: Seq<Version>, spec: Seq<char>, r: Option<Version>)
    requires
        listed_pick(av, spec, r),
    ensures
        listed_pick_view(av, spec) == match r {
            Some(v) => Some((v.fields@, v.raw@)),
            None => None,
        },
{
    match r {
        Some(v) => {
            let sel = listed_selection(av, spec).unwrap();
            let i = choose|i: int|
                #[trigger] is_last_newest(fields_of(av), sel, i) && v.fields@ == av[i].fields@
                    && v.raw@ == av[i].raw@;
            let k = choose|k: int| is_last_newest(fields_of(av), sel, k);
            lemma_last_newest_unique(fields_of(av), sel, i, k);
        },
        None => {
            match listed_selection(av, spec) {
                None => {},
                Some(sel) => {
                    if exists|i: int| is_last_newest(fields_of(av), sel, i) {
                        let i = choose|i: int| is_last_newest(fields_of(av), sel, i);
                        assert(sel[i]);
                    }
                },
            }
        },
    }
}

/// The newest listed version matching `spec` (`latest` is the newest
/// overall); of equal newest ones the last listed.
pub fn pick_listed_version(available: &[Version], spec: &str) -> (r: Option<Version>)
    ensures
        listed_pick(available@, spec@, r),
{
    let latest = str_eq(spec, "latest");
    let want: Vec<u32> = if latest {
        Vec::new()
    } else {
        match Version::parse(spec) {
            Ok(w) => w.fields,
            Err(_) => return None,
        }
    };
    let mut sel: Vec<bool> = Vec::new();
    let mut k: usize = 0;
    while k < available.len()
        invariant
            k <= available@.len(),
            sel@.len() == k,
            listed_selection(available@, spec@) is Some,
            forall|j: int|
                0 <= j < k ==> #[trigger] sel@[j] == listed_selection(
                    available@,
                    spec@,
                ).unwrap()[j],
            latest ==> spec@ == "latest"@,
            !latest ==> spec@ != "latest"@ && version_fields(spec@) == Some(want@),
        decreases available.len() - k,
    {
        let m = if latest {
            true
        } else {
            has_prefix_exec(&available[k].fields, &want)
        };
        sel.push(m);
        k = k + 1;
    }
    assert(sel@ =~= listed_selection(available@, spec@).unwrap());
    match last_newest(available, &sel) {
        Some(i) => Some(available[i].copy()),
        None => None,
    }
}

/// `spec`'s dot-separated fields equal, as text, the leading fields of `f`
/// rendered in decimal (`12.4` matches `12.4.1`; `12.04` matches nothing).
pub open spec fn text_fields_match(spec: Seq<char>, f: Seq<u32>) -> bool {
    let want = split(spec, '.');
    want.len() <= f.len() && forall|i: int| 0 <= i < want.len() ==> #[trigger] want[i] == decimal(
        f[i] as nat,
    )
}

/// Whether `spec`'s dot-separated fields equal, as text, the leading fields
/// of `version`.
pub fn text_fields_match_exec(spec: &str, version: &Version) -> (r: bool)
    ensures
        r == text_fields_match(spec@, version.fields@),
{
    let want = split_chars(&str_chars(spec), '.');
    let ghost wv = parts_view(want@);
    if want.len() > version.fields.len() {
        return false;
    }
    let mut i: usize = 0;
    while i < want.len()
        invariant
            wv == parts_view(want@),
            wv == split(spec@, '.'),
            want@.len() <= version.fields@.len(),
            i <= want@.len(),
            forall|k: int| 0 <= k < i ==> #[trigger] wv[k] == decimal(version.fields@[k] as nat),
        decreases want.len() - i,
    {
        let have = u32_decimal(version.fields[i]);
        let hv = str_chars(have.as_str());
        if !chars_eq(&want[i], &hv) {
            assert(wv[i as int] != decimal(version.fields@[i as int] as nat));
            return false;
        }
        i = i + 1;
    }
    true
}

} // verus!
