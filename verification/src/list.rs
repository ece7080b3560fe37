//! `ls`: the unified installed + available view. Available rows are filtered
//! by the spec first, then (unless all versions are asked for) collapsed to
//! the newest patch per minor line; rows render newest first.
use vstd::prelude::*;
use vstd::string::*;

use crate::domain::{Bundle, Source};
use crate::pick::{
    fields_of, is_last_newest, last_newest, lemma_last_newest_unique, text_fields_match,
    text_fields_match_exec,
};
use crate::text::{
    copy_opt_string, copy_strings, decimal, ends_with, lemma_text_less_total,
    lemma_text_less_trans, opt_str_view, pad_right, push_char, str_chars, string_of,
    strings_view, text_less, text_less_exec,
};
use vstd::utf8::encode_utf8;
use crate::version::{
    field_at, lemma_version_order_antisymmetric, lemma_version_order_reflexive,
    lemma_version_order_transitive, version_order, Version,
};

verus! {

/// Options for a listing.
#[derive(Debug)]
pub struct ListOpts {
    pub spec: Option<String>,
    pub only_installed: bool,
    pub only_downloads: bool,
    pub all_versions: bool,
    pub show_urls: bool,
    pub refresh: bool,
    pub json: bool,
}

impl Default for ListOpts {
    fn default() -> (o: ListOpts)
        ensures
            o.spec is None,
            !o.only_installed && !o.only_downloads && !o.all_versions && !o.show_urls
                && !o.refresh && !o.json,
    {
        ListOpts {
            spec: None,
            only_installed: false,
            only_downloads: false,
            all_versions: false,
            show_urls: false,
            refresh: false,
            json: false,
        }
    }
}

/// One merged row of the listing.
pub struct Row {
    pub handle: String,
    pub version: Version,
    pub installed: bool,
    /// `"downloaded"` or `"adopted"` for installed rows.
    pub source: Option<String>,
    pub path: Option<String>,
    pub components: Vec<String>,
    /// RFC 3339; `None` for available-not-installed rows.
    pub installed_at: Option<String>,
    pub is_default: bool,
}

/// Whether `version` satisfies the `spec` prefix (exact / minor / major):
/// the spec's dot-separated fields equal, as text, the leading fields.
pub fn spec_matches(spec: &str, version: &Version) -> (r: bool)
    ensures
        r == text_fields_match(spec@, version.fields@),
{
    text_fields_match_exec(spec, version)
}

/// The versions matching `spec`, in order.
pub open spec fn matching(vs: Seq<Version>, spec: Seq<char>) -> Seq<Version>
    decreases vs.len(),
{
    if vs.len() == 0 {
        Seq::<Version>::empty()
    } else if text_fields_match(spec, vs.last().fields@) {
        matching(vs.drop_last(), spec).push(vs.last())
    } else {
        matching(vs.drop_last(), spec)
    }
}

/// The minor line a version belongs to, as `major_minor` renders it.
#[verifier::opaque]
pub open spec fn line_key(f: Seq<u32>) -> Seq<char> {
    decimal(field_at(f, 0) as nat) + seq!['.'] + decimal(field_at(f, 1) as nat)
}

/// `vs[i]` is the first newest version of minor line `key`.
#[verifier::opaque]
pub open spec fn is_line_newest(vs: Seq<Version>, key: Seq<char>, i: int) -> bool {
    &&& 0 <= i < vs.len()
    &&& line_key(vs[i].fields@) == key
    &&& forall|j: int|
        0 <= j < vs.len() && #[trigger] line_key(vs[j].fields@) == key ==> version_order(
            vs[j].fields@,
            vs[i].fields@,
        ) <= 0
    &&& forall|j: int|
        0 <= j < i && #[trigger] line_key(vs[j].fields@) == key ==> version_order(
            vs[j].fields@,
            vs[i].fields@,
        ) < 0
}

/// The lines of `r` ascend strictly by their text.
pub open spec fn lines_ascend(r: Seq<Version>) -> bool {
    forall|a: int, b: int|
        0 <= a < b < r.len() ==> text_less(
            #[trigger] line_key(r[a].fields@),
            #[trigger] line_key(r[b].fields@),
        )
}

/// `v` is, in `vs`, the first newest version of its line.
pub open spec fn newest_in(vs: Seq<Version>, v: Version) -> bool {
    exists|i: int|
        0 <= i < vs.len() && #[trigger] is_line_newest(vs, line_key(v.fields@), i) && v == vs[i]
}

/// Every version of `r` is the first newest of its line in `vs`.
pub open spec fn lines_newest(vs: Seq<Version>, r: Seq<Version>) -> bool {
    forall|k: int| 0 <= k < r.len() ==> #[trigger] newest_in(vs, r[k])
}

/// `r` holds a version of `v`'s line.
pub open spec fn has_line(r: Seq<Version>, v: Version) -> bool {
    exists|k: int| 0 <= k < r.len() && #[trigger] line_key(r[k].fields@) == line_key(v.fields@)
}

/// Every line of `vs` has its version in `r`.
pub open spec fn lines_covered(vs: Seq<Version>, r: Seq<Version>) -> bool {
    forall|i: int| 0 <= i < vs.len() ==> #[trigger] has_line(r, vs[i])
}

/// `r` is the newest-per-minor collapse of `vs`: one version per minor line
/// present, the first newest of its line, in ascending order of the line's
/// text (as a map keyed by that text yields them).
pub open spec fn is_collapse(vs: Seq<Version>, r: Seq<Version>) -> bool {
    lines_ascend(r) && lines_newest(vs, r) && lines_covered(vs, r)
}

/// The line key of a version, computed.
fn line_key_exec(v: &Version) -> (r: Vec<char>)
    ensures
        r@ == line_key(v.fields@),
{
    let mm = v.major_minor();
    proof {
        reveal(line_key);
    }
    str_chars(mm.raw.as_str())
}

/// Lines that ascend strictly are distinct.
proof fn lemma_ascend_distinct(r: Seq<Version>, a: int, b: int)
    requires
        lines_ascend(r),
        0 <= a < r.len(),
        0 <= b < r.len(),
        a != b,
    ensures
        line_key(r[a].fields@) != line_key(r[b].fields@),
{
    if a < b {
        lemma_text_less_total(line_key(r[a].fields@), line_key(r[b].fields@));
    } else {
        lemma_text_less_total(line_key(r[b].fields@), line_key(r[a].fields@));
    }
}

/// Adding a version to `pre` keeps the newest of the other lines.
proof fn lemma_newest_other_line(pre: Seq<Version>, v: Version, key: Seq<char>, i: int)
    requires
        is_line_newest(pre, key, i),
        line_key(v.fields@) != key,
    ensures
        is_line_newest(pre.push(v), key, i),
{
    reveal(is_line_newest);
    reveal(is_line_newest);
    let post = pre.push(v);
    assert forall|j: int|
        0 <= j < post.len() && #[trigger] line_key(post[j].fields@) == key implies version_order(
        post[j].fields@,
        post[i].fields@,
    ) <= 0 by {
        assert(post[j] == pre[j]);
    }
}

/// Adding an older (or equal) version of the line keeps its newest.
proof fn lemma_newest_same_line_older(pre: Seq<Version>, v: Version, i: int)
    requires
        is_line_newest(pre, line_key(v.fields@), i),
        version_order(pre[i].fields@, v.fields@) >= 0,
    ensures
        is_line_newest(pre.push(v), line_key(v.fields@), i),
{
    reveal(is_line_newest);
    reveal(is_line_newest);
    let post = pre.push(v);
    lemma_version_order_antisymmetric(pre[i].fields@, v.fields@);
    assert forall|j: int|
        0 <= j < post.len() && #[trigger] line_key(post[j].fields@) == line_key(v.fields@)
            implies version_order(post[j].fields@, post[i].fields@) <= 0 by {
        if j < pre.len() {
            assert(post[j] == pre[j]);
        }
    }
}

/// A newer version of the line becomes its newest.
proof fn lemma_newest_same_line_newer(pre: Seq<Version>, v: Version, i: int)
    requires
        is_line_newest(pre, line_key(v.fields@), i),
        version_order(pre[i].fields@, v.fields@) < 0,
    ensures
        is_line_newest(pre.push(v), line_key(v.fields@), pre.len() as int),
{
    reveal(is_line_newest);
    reveal(is_line_newest);
    let post = pre.push(v);
    let n = pre.len() as int;
    lemma_version_order_antisymmetric(pre[i].fields@, v.fields@);
    lemma_version_order_reflexive(v.fields@);
    assert forall|j: int|
        0 <= j < post.len() && #[trigger] line_key(post[j].fields@) == line_key(v.fields@)
            implies version_order(post[j].fields@, v.fields@) <= 0 by {
        if j < n {
            assert(post[j] == pre[j]);
            lemma_version_order_transitive(pre[j].fields@, pre[i].fields@, v.fields@);
        }
    }
    assert forall|j: int|
        0 <= j < n && #[trigger] line_key(post[j].fields@) == line_key(v.fields@) implies version_order(
        post[j].fields@,
        v.fields@,
    ) < 0 by {
        assert(post[j] == pre[j]);
        lemma_version_order_transitive(pre[j].fields@, pre[i].fields@, v.fields@);
    }
}

/// The first version of a new line is its newest.
proof fn lemma_newest_new_line(pre: Seq<Version>, v: Version)
    requires
        forall|j: int| 0 <= j < pre.len() ==> line_key(#[trigger] pre[j].fields@) != line_key(v.fields@),
    ensures
        is_line_newest(pre.push(v), line_key(v.fields@), pre.len() as int),
{
    reveal(is_line_newest);
    reveal(is_line_newest);
    let post = pre.push(v);
    lemma_version_order_reflexive(v.fields@);
    assert forall|j: int|
        0 <= j < post.len() && #[trigger] line_key(post[j].fields@) == line_key(v.fields@)
            implies version_order(post[j].fields@, v.fields@) <= 0 by {
        if j < pre.len() {
            assert(post[j] == pre[j]);
        }
    }
}

/// Replacing a line's version by a newer one keeps the collapse.
proof fn lemma_collapse_replace(pre: Seq<Version>, best: Seq<Version>, p: int, v: Version)
    requires
        is_collapse(pre, best),
        0 <= p < best.len(),
        line_key(best[p].fields@) == line_key(v.fields@),
        version_order(best[p].fields@, v.fields@) < 0,
    ensures
        is_collapse(pre.push(v), best.update(p, v)),
{
    let post = pre.push(v);
    let nb = best.update(p, v);
    let n = pre.len() as int;
    assert forall|a: int, b: int| 0 <= a < b < nb.len() implies text_less(
        #[trigger] line_key(nb[a].fields@),
        #[trigger] line_key(nb[b].fields@),
    ) by {
        assert(text_less(line_key(best[a].fields@), line_key(best[b].fields@)));
    }
    assert forall|k: int| 0 <= k < nb.len() implies #[trigger] newest_in(post, nb[k]) by {
        assert(newest_in(pre, best[k]));
        let i = choose|i: int|
            0 <= i < pre.len() && #[trigger] is_line_newest(pre, line_key(best[k].fields@), i)
                && best[k] == pre[i];
        if k == p {
            lemma_newest_same_line_newer(pre, v, i);
            assert(nb[k] == post[n]);
            assert(0 <= n < post.len() && is_line_newest(post, line_key(nb[k].fields@), n));
        } else {
            lemma_ascend_distinct(best, k, p);
            lemma_newest_other_line(pre, v, line_key(best[k].fields@), i);
            assert(nb[k] == post[i]);
            assert(0 <= i < post.len() && is_line_newest(post, line_key(nb[k].fields@), i));
        }
    }
    assert forall|i: int| 0 <= i < post.len() implies #[trigger] has_line(nb, post[i]) by {
        if i < n {
            assert(post[i] == pre[i]);
            assert(has_line(best, pre[i]));
            let k = choose|k: int|
                0 <= k < best.len() && #[trigger] line_key(best[k].fields@) == line_key(
                    pre[i].fields@,
                );
            if k == p {
                assert(line_key(nb[k].fields@) == line_key(v.fields@));
            } else {
                assert(nb[k] == best[k]);
            }
            assert(0 <= k < nb.len() && line_key(nb[k].fields@) == line_key(post[i].fields@));
        } else {
            assert(nb[p] == v);
            assert(0 <= p < nb.len() && line_key(nb[p].fields@) == line_key(post[i].fields@));
        }
    }
}

/// Meeting an older (or equal) version of a line keeps the collapse.
proof fn lemma_collapse_keep(pre: Seq<Version>, best: Seq<Version>, p: int, v: Version)
    requires
        is_collapse(pre, best),
        0 <= p < best.len(),
        line_key(best[p].fields@) == line_key(v.fields@),
        version_order(best[p].fields@, v.fields@) >= 0,
    ensures
        is_collapse(pre.push(v), best),
{
    let post = pre.push(v);
    assert forall|k: int| 0 <= k < best.len() implies #[trigger] newest_in(post, best[k]) by {
        assert(newest_in(pre, best[k]));
        let i = choose|i: int|
            0 <= i < pre.len() && #[trigger] is_line_newest(pre, line_key(best[k].fields@), i)
                && best[k] == pre[i];
        if k == p {
            lemma_newest_same_line_older(pre, v, i);
        } else {
            lemma_ascend_distinct(best, k, p);
            lemma_newest_other_line(pre, v, line_key(best[k].fields@), i);
        }
        assert(best[k] == post[i]);
        assert(0 <= i < post.len() && is_line_newest(post, line_key(best[k].fields@), i));
    }
    assert forall|i: int| 0 <= i < post.len() implies #[trigger] has_line(best, post[i]) by {
        if i < pre.len() {
            assert(post[i] == pre[i]);
            assert(has_line(best, pre[i]));
        } else {
            assert(0 <= p < best.len() && line_key(best[p].fields@) == line_key(post[i].fields@));
        }
    }
}

/// A version of a new line, inserted in order, keeps the collapse.
proof fn lemma_collapse_insert(pre: Seq<Version>, best: Seq<Version>, p: int, v: Version)
    requires
        is_collapse(pre, best),
        0 <= p <= best.len(),
        forall|k: int| 0 <= k < p ==> text_less(#[trigger] line_key(best[k].fields@), line_key(v.fields@)),
        p < best.len() ==> text_less(line_key(v.fields@), line_key(best[p].fields@)),
    ensures
        is_collapse(pre.push(v), best.insert(p, v)),
{
    let post = pre.push(v);
    let nb = best.insert(p, v);
    let key = line_key(v.fields@);
    let n = pre.len() as int;
    assert forall|k: int| 0 <= k < best.len() implies line_key(#[trigger] best[k].fields@) != key by {
        if k < p {
            lemma_text_less_total(line_key(best[k].fields@), key);
        } else {
            if k > p {
                lemma_text_less_trans(key, line_key(best[p].fields@), line_key(best[k].fields@));
            }
            lemma_text_less_total(key, line_key(best[k].fields@));
        }
    }
    assert forall|j: int| 0 <= j < pre.len() implies line_key(#[trigger] pre[j].fields@) != key by {
        assert(has_line(best, pre[j]));
        let k = choose|k: int|
            0 <= k < best.len() && #[trigger] line_key(best[k].fields@) == line_key(pre[j].fields@);
    }
    assert forall|a: int, b: int| 0 <= a < b < nb.len() implies text_less(
        #[trigger] line_key(nb[a].fields@),
        #[trigger] line_key(nb[b].fields@),
    ) by {
        if b == p {
            assert(text_less(line_key(best[a].fields@), key));
        } else if a == p {
            if b - 1 > p {
                lemma_text_less_trans(key, line_key(best[p].fields@), line_key(best[b - 1].fields@));
            }
        } else if a < p && b > p {
            assert(text_less(line_key(best[a].fields@), key));
            if b - 1 > p {
                lemma_text_less_trans(key, line_key(best[p].fields@), line_key(best[b - 1].fields@));
            }
            lemma_text_less_trans(line_key(best[a].fields@), key, line_key(best[b - 1].fields@));
        } else if a > p {
            assert(nb[a] == best[a - 1] && nb[b] == best[b - 1]);
            assert(text_less(line_key(best[a - 1].fields@), line_key(best[b - 1].fields@)));
        } else {
            assert(nb[a] == best[a] && nb[b] == best[b]);
            assert(text_less(line_key(best[a].fields@), line_key(best[b].fields@)));
        }
    }
    lemma_newest_new_line(pre, v);
    assert forall|k: int| 0 <= k < nb.len() implies #[trigger] newest_in(post, nb[k]) by {
        if k == p {
            assert(nb[k] == post[n]);
            assert(0 <= n < post.len() && is_line_newest(post, line_key(nb[k].fields@), n));
        } else {
            let ko = if k < p {
                k
            } else {
                k - 1
            };
            assert(nb[k] == best[ko]);
            assert(newest_in(pre, best[ko]));
            let i = choose|i: int|
                0 <= i < pre.len() && #[trigger] is_line_newest(pre, line_key(best[ko].fields@), i)
                    && best[ko] == pre[i];
            lemma_newest_other_line(pre, v, line_key(best[ko].fields@), i);
            assert(nb[k] == post[i]);
            assert(0 <= i < post.len() && is_line_newest(post, line_key(nb[k].fields@), i));
        }
    }
    assert forall|i: int| 0 <= i < post.len() implies #[trigger] has_line(nb, post[i]) by {
        if i < n {
            assert(post[i] == pre[i]);
            assert(has_line(best, pre[i]));
            let k = choose|k: int|
                0 <= k < best.len() && #[trigger] line_key(best[k].fields@) == line_key(
                    pre[i].fields@,
                );
            let kn = if k < p {
                k
            } else {
                k + 1
            };
            assert(nb[kn] == best[k]);
            assert(0 <= kn < nb.len() && line_key(nb[kn].fields@) == line_key(post[i].fields@));
        } else {
            assert(nb[p] == post[i]);
            assert(0 <= p < nb.len() && line_key(nb[p].fields@) == line_key(post[i].fields@));
        }
    }
}

/// Keep only the newest patch per `major.minor` line (the first of equal
/// newest ones), in ascending order of the line's text.
pub fn newest_per_minor(versions: Vec<Version>) -> (r: Vec<Version>)
    ensures
        is_collapse(versions@, r@),
{
    let ghost vs = versions@;
    let mut rest = versions;
    let mut best: Vec<Version> = Vec::new();
    let mut keys: Vec<Vec<char>> = Vec::new();
    proof {
        assert(vs.take(0) =~= Seq::<Version>::empty());
    }
    while rest.len() > 0
        invariant
            rest@.len() <= vs.len(),
            rest@ == vs.subrange(vs.len() - rest@.len(), vs.len() as int),
            keys@.len() == best@.len(),
            forall|k: int| 0 <= k < best@.len() ==> #[trigger] keys@[k]@ == line_key(best@[k].fields@),
            is_collapse(vs.take(vs.len() - rest@.len()), best@),
        decreases rest.len(),
    {
        let ghost n = vs.len() - rest@.len();
        let v = rest.remove(0);
        proof {
            assert(v == vs[n]);
            assert(rest@ =~= vs.subrange(vs.len() - rest@.len(), vs.len() as int));
            assert(vs.take(n + 1) =~= vs.take(n).push(v));
        }
        let key = line_key_exec(&v);
        // The first line at or after `key`.
        let mut p: usize = 0;
        while p < keys.len() && text_less_exec(&keys[p], &key)
            invariant
                p <= keys@.len(),
                keys@.len() == best@.len(),
                forall|k: int| 0 <= k < best@.len() ==> #[trigger] keys@[k]@ == line_key(best@[k].fields@),
                forall|k: int| 0 <= k < p ==> text_less(#[trigger] keys@[k]@, key@),
            decreases keys.len() - p,
        {
            p = p + 1;
        }
        let ghost old_best = best@;
        let ghost old_keys = keys@;
        if p < keys.len() && !text_less_exec(&key, &keys[p]) {
            // Same line: keep the newer, the earlier of equals.
            proof {
                lemma_text_less_total(keys@[p as int]@, key@);
            }
            if best[p].compare_to(&v) < 0 {
                proof {
                    lemma_collapse_replace(vs.take(n), old_best, p as int, v);
                }
                best.set(p, v);
            } else {
                proof {
                    lemma_collapse_keep(vs.take(n), old_best, p as int, v);
                }
            }
        } else {
            proof {
                if p < keys@.len() {
                    lemma_text_less_total(keys@[p as int]@, key@);
                }
                assert forall|k: int| 0 <= k < p implies text_less(
                    #[trigger] line_key(old_best[k].fields@),
                    line_key(v.fields@),
                ) by {
                    assert(text_less(keys@[k]@, key@));
                }
                lemma_collapse_insert(vs.take(n), old_best, p as int, v);
            }
            best.insert(p, v);
            keys.insert(p, key);
            proof {
                assert forall|k: int| 0 <= k < best@.len() implies #[trigger] keys@[k]@ == line_key(
                    best@[k].fields@,
                ) by {
                    if k < p {
                        assert(keys@[k] == old_keys[k]);
                    } else if k > p {
                        assert(keys@[k] == old_keys[k - 1]);
                    }
                }
            }
        }
    }
    assert(vs.take(vs.len() as int) =~= vs);
    best
}

/// Apply the `spec` filter, then (unless `all_versions`) collapse to the
/// newest patch per minor. Filtering first keeps an exact-patch query for an
/// older patch visible; collapsing first would drop it before it can match.
pub fn filter_and_collapse(versions: Vec<Version>, spec: Option<&str>, all_versions: bool) -> (r:
    Vec<Version>)
    ensures
        ({
            let kept = match spec {
                Some(s) => matching(versions@, s@),
                None => versions@,
            };
            if all_versions {
                r@ == kept
            } else {
                is_collapse(kept, r@)
            }
        }),
{
    let kept = match spec {
        Some(s) => {
            let ghost vs = versions@;
            let mut rest = versions;
            let mut out: Vec<Version> = Vec::new();
            while rest.len() > 0
                invariant
                    rest@.len() <= vs.len(),
                    rest@ == vs.subrange(vs.len() - rest@.len(), vs.len() as int),
                    out@ == matching(vs.take(vs.len() - rest@.len()), s@),
                decreases rest.len(),
            {
                let ghost n = vs.len() - rest@.len();
                let v = rest.remove(0);
                proof {
                    assert(v == vs[n]);
                    assert(rest@ =~= vs.subrange(vs.len() - rest@.len(), vs.len() as int));
                    assert(vs.take(n + 1).drop_last() =~= vs.take(n));
                }
                if spec_matches(s, &v) {
                    out.push(v);
                }
            }
            assert(vs.take(vs.len() as int) =~= vs);
            out
        },
        None => versions,
    };
    if all_versions {
        kept
    } else {
        newest_per_minor(kept)
    }
}

/// Every position selected.
pub open spec fn select_all(n: nat) -> Seq<bool> {
    Seq::new(n, |j: int| true)
}

/// The position of the newest of `vs`; of equal newest ones the last.
pub open spec fn newest_last_index(vs: Seq<Version>) -> int {
    choose|i: int| is_last_newest(fields_of(vs), select_all(vs.len()), i)
}

/// `vs` newest first: the newest (of equal newest ones the last listed),
/// then the rest, newest first. Equal versions thus come in reverse of their
/// listed order.
pub open spec fn newest_first(vs: Seq<Version>) -> Seq<Version>
    decreases vs.len(),
{
    if vs.len() == 0 {
        Seq::<Version>::empty()
    } else {
        let i = newest_last_index(vs);
        if 0 <= i < vs.len() {
            seq![vs[i]] + newest_first(vs.remove(i))
        } else {
            Seq::<Version>::empty()
        }
    }
}

fn select_all_exec(n: usize) -> (r: Vec<bool>)
    ensures
        r@ == select_all(n as nat),
{
    let mut r: Vec<bool> = Vec::new();
    let mut i: usize = 0;
    while i < n
        invariant
            i <= n,
            r@ == Seq::new(i as nat, |j: int| true),
        decreases n - i,
    {
        r.push(true);
        i = i + 1;
        assert(r@ =~= Seq::new(i as nat, |j: int| true));
    }
    r
}

/// A remote index as `ls-remote --cudnn` / `--nccl` lists it: the versions
/// `spec` matches (all of them without a spec), newest first.
pub fn remote_listing(versions: Vec<Version>, spec: Option<&str>) -> (r: Vec<Version>)
    ensures
        r@ == newest_first(
            match spec {
                Some(s) => matching(versions@, s@),
                None => versions@,
            },
        ),
{
    let mut rest = filter_and_collapse(versions, spec, true);
    let ghost kept = rest@;
    let mut out: Vec<Version> = Vec::new();
    while rest.len() > 0
        invariant
            out@ + newest_first(rest@) == newest_first(kept),
        decreases rest.len(),
    {
        let sel = select_all_exec(rest.len());
        let idx = match last_newest(rest.as_slice(), &sel) {
            Some(i) => i,
            None => {
                assert(sel@[0]);
                return out;
            },
        };
        proof {
            let c = newest_last_index(rest@);
            lemma_last_newest_unique(fields_of(rest@), select_all(rest@.len()), idx as int, c);
        }
        let ghost before = rest@;
        let v = rest.remove(idx);
        proof {
            assert(newest_first(before) == seq![v] + newest_first(rest@));
            assert(out@.push(v) + newest_first(rest@) =~= out@ + (seq![v] + newest_first(rest@)));
        }
        out.push(v);
    }
    assert(newest_first(rest@) =~= Seq::<Version>::empty());
    assert(out@ + newest_first(rest@) =~= out@);
    out
}

/// The redist manifest URL of a release: `base`, a `/` unless it already
/// ends in one, then `redistrib_<version>.json`.
pub open spec fn redist_url(base: Seq<char>, raw: Seq<char>) -> Seq<char> {
    base + (if ends_with(base, "/"@) {
        Seq::<char>::empty()
    } else {
        "/"@
    }) + "redistrib_"@ + raw + ".json"@
}

/// The redist manifest URL of `version` under `base`, with a trailing `/`
/// enforced on `base` the way the registry client does.
pub fn redist_url_for(base: &str, version: &Version) -> (r: String)
    ensures
        r@ == redist_url(base@, version.raw@),
{
    let bv = str_chars(base);
    let slash = str_chars("/");
    let mut u = string_of(base);
    if !crate::text::ends_with_exec(&bv, &slash) {
        u.append("/");
    }
    proof {
        reveal_strlit("");
    }
    u.append("redistrib_");
    u.append(version.raw.as_str());
    u.append(".json");
    u
}

/// The first column of a row: its handle, with ` *` glued on for the default.
pub open spec fn row_cell(r: Row) -> Seq<char> {
    if r.is_default {
        r.handle@ + " *"@
    } else {
        r.handle@
    }
}

/// The second column of a row: the install path, the redist URL, or
/// `<download available>`.
pub open spec fn row_col2(r: Row, show_urls: bool, base: Seq<char>) -> Seq<char> {
    if r.installed {
        match r.path {
            Some(p) => p@,
            None => Seq::<char>::empty(),
        }
    } else if show_urls {
        redist_url(base, r.version.raw@)
    } else {
        "<download available>"@
    }
}

/// The width `format!` pads to: a cell's length in bytes (`str::len`).
pub open spec fn cell_width(c: Seq<char>) -> nat {
    (encode_utf8(c).len() as usize) as nat
}

/// The widest first cell among `rows`, 0 when there are none.
pub open spec fn max_cell_width(rows: Seq<Row>) -> nat
    decreases rows.len(),
{
    if rows.len() == 0 {
        0
    } else {
        let w = cell_width(row_cell(rows.last()));
        let rest = max_cell_width(rows.drop_last());
        if w > rest {
            w
        } else {
            rest
        }
    }
}

/// One rendered text row.
pub open spec fn text_row(r: Row, width: nat, show_urls: bool, base: Seq<char>) -> Seq<char> {
    pad_right(row_cell(r), width) + "  "@ + row_col2(r, show_urls, base)
}

/// The install path a row shows: its path, empty when it has none.
pub open spec fn shown_path(r: Row) -> Seq<char> {
    match r.path {
        Some(p) => p@,
        None => Seq::<char>::empty(),
    }
}

/// An installed row shows its install path in the second column whether or
/// not URLs are shown; `--show-urls` changes only the rows that are not
/// installed, which then show their redist URL instead of
/// `<download available>`.
pub proof fn lemma_installed_rows_keep_their_path(r: Row, width: nat, base: Seq<char>)
    ensures
        r.installed ==> text_row(r, width, true, base) == text_row(r, width, false, base),
        r.installed ==> text_row(r, width, true, base) == pad_right(row_cell(r), width) + "  "@
            + shown_path(r),
        !r.installed ==> text_row(r, width, true, base) == pad_right(row_cell(r), width) + "  "@
            + redist_url(base, r.version.raw@),
        !r.installed ==> text_row(r, width, false, base) == pad_right(row_cell(r), width) + "  "@
            + "<download available>"@,
{
}

fn row_cell_exec(r: &Row) -> (c: String)
    ensures
        c@ == row_cell(*r),
{
    let mut c = r.handle.clone();
    if r.is_default {
        c.append(" *");
    }
    c
}

/// Render the text rows, one string per row. The default's `*` is glued to
/// its handle first (`<handle> *`), then the cell is padded so the second
/// column stays aligned across handles of mixed width.
pub fn format_text_rows(list: &[Row], show_urls: bool, base: &str) -> (lines: Vec<String>)
    ensures
        lines@.len() == list@.len(),
        forall|k: int|
            0 <= k < list@.len() ==> #[trigger] lines@[k]@ == text_row(
                list@[k],
                max_cell_width(list@),
                show_urls,
                base@,
            ),
        forall|k: int|
            0 <= k < list@.len() && (#[trigger] list@[k]).installed ==> lines@[k]@ == pad_right(
                row_cell(list@[k]),
                max_cell_width(list@),
            ) + "  "@ + shown_path(list@[k]),
{
    let mut width: usize = 0;
    let mut i: usize = 0;
    while i < list.len()
        invariant
            i <= list@.len(),
            width as nat == max_cell_width(list@.take(i as int)),
        decreases list.len() - i,
    {
        assert(list@.take(i + 1).drop_last() =~= list@.take(i as int));
        let c = row_cell_exec(&list[i]);
        let w = c.as_str().len();
        if w > width {
            width = w;
        }
        i = i + 1;
    }
    assert(list@.take(list@.len() as int) =~= list@);
    let mut lines: Vec<String> = Vec::new();
    let mut k: usize = 0;
    while k < list.len()
        invariant
            k <= list@.len(),
            width as nat == max_cell_width(list@),
            lines@.len() == k,
            forall|j: int|
                0 <= j < k ==> #[trigger] lines@[j]@ == text_row(
                    list@[j],
                    max_cell_width(list@),
                    show_urls,
                    base@,
                ),
        decreases list.len() - k,
    {
        let r = &list[k];
        let mut line = row_cell_exec(r);
        let n = line.as_str().unicode_len();
        let mut pad: usize = n;
        let ghost cell = line@;
        while pad < width
            invariant
                n == cell.len(),
                n <= pad <= width || (pad == n && n >= width),
                line@ == cell + Seq::new((pad - n) as nat, |i: int| ' '),
            decreases width - pad,
        {
            let ghost before = line@;
            push_char(&mut line, ' ');
            pad = pad + 1;
            assert(line@ =~= cell + Seq::new((pad - n) as nat, |i: int| ' '));
        }
        assert(line@ =~= pad_right(cell, width as nat));
        line.append("  ");
        if r.installed {
            match &r.path {
                Some(p) => line.append(p.as_str()),
                None => {},
            }
        } else if show_urls {
            let u = redist_url_for(base, &r.version);
            line.append(u.as_str());
        } else {
            line.append("<download available>");
        }
        proof {
            reveal_strlit("");
        }
        lines.push(line);
        k = k + 1;
    }
    lines
}

/// The listing row of an installed bundle: its handle and version, its
/// source (`adopted`, else `downloaded`), root and components, the given
/// install time, and whether it is the default alias's target.
pub fn installed_row(b: &Bundle, installed_at: Option<String>, default: Option<&str>) -> (r: Row)
    ensures
        r.handle@ == b.toolkit.version.raw@,
        r.version.fields@ == b.toolkit.version.fields@,
        r.version.raw@ == b.toolkit.version.raw@,
        r.installed,
        opt_str_view(r.source) == Some(
            if b.toolkit.source == Source::Adopted {
                "adopted"@
            } else {
                "downloaded"@
            },
        ),
        opt_str_view(r.path) == Some(b.toolkit.root@),
        strings_view(r.components@) == strings_view(b.toolkit.components@),
        r.installed_at == installed_at,
        r.is_default == (match default {
            Some(d) => d@ == b.toolkit.version.raw@,
            None => false,
        }),
{
    let handle = b.handle();
    let source = if b.toolkit.source == Source::Adopted {
        "adopted"
    } else {
        "downloaded"
    };
    let is_default = match default {
        Some(d) => crate::text::str_eq(d, handle.as_str()),
        None => false,
    };
    Row {
        handle,
        version: b.toolkit.version.copy(),
        installed: true,
        source: Some(string_of(source)),
        path: Some(b.toolkit.root.clone()),
        components: copy_strings(&b.toolkit.components),
        installed_at,
        is_default,
    }
}

/// The listing row of a release available for download.
pub fn available_row(v: &Version) -> (r: Row)
    ensures
        r.handle@ == v.raw@,
        r.version.fields@ == v.fields@,
        r.version.raw@ == v.raw@,
        !r.installed,
        r.source is None,
        r.path is None,
        r.components@.len() == 0,
        r.installed_at is None,
        !r.is_default,
{
    Row {
        handle: v.raw.clone(),
        version: v.copy(),
        installed: false,
        source: None,
        path: None,
        components: Vec::new(),
        installed_at: None,
        is_default: false,
    }
}

/// What a listing row shows: handle, version fields and text, installed,
/// source, path, components, install time, default.
pub type RowView = (
    Seq<char>,
    Seq<u32>,
    Seq<char>,
    bool,
    Option<Seq<char>>,
    Option<Seq<char>>,
    Seq<Seq<char>>,
    Option<Seq<char>>,
    bool,
);

/// The view of a row.
pub open spec fn row_view(r: Row) -> RowView {
    (
        r.handle@,
        r.version.fields@,
        r.version.raw@,
        r.installed,
        opt_str_view(r.source),
        opt_str_view(r.path),
        strings_view(r.components@),
        opt_str_view(r.installed_at),
        r.is_default,
    )
}

/// The view of the row an available version gets.
pub open spec fn available_view(v: Version) -> RowView {
    (v.raw@, v.fields@, v.raw@, false, None, None, Seq::empty(), None, false)
}

/// `a` lists before `b`: a newer version, or the same version and a handle
/// earlier in text order.
pub open spec fn lists_before(a: RowView, b: RowView) -> bool {
    version_order(a.1, b.1) > 0 || (version_order(a.1, b.1) == 0 && text_less(a.0, b.0))
}

/// Rows in strict listing order.
pub open spec fn listing_sorted(r: Seq<RowView>) -> bool {
    forall|i: int, j: int| 0 <= i < j < r.len() ==> lists_before(#[trigger] r[i], #[trigger] r[j])
}

/// The views of a row sequence.
pub open spec fn rows_view(r: Seq<Row>) -> Seq<RowView> {
    Seq::new(r.len(), |i: int| row_view(r[i]))
}

/// Installed row `k` is the one its handle keeps: no later row has it.
pub open spec fn kept_installed(installed: Seq<Row>, k: int) -> bool {
    &&& 0 <= k < installed.len()
    &&& forall|j: int|
        k < j < installed.len() ==> #[trigger] installed[j].handle@ != installed[k].handle@
}

/// Available version `k` adds a row: no installed row and no earlier
/// version has its text as handle.
pub open spec fn adds_row(installed: Seq<Row>, available: Seq<Version>, k: int) -> bool {
    &&& 0 <= k < available.len()
    &&& forall|j: int| 0 <= j < installed.len() ==> #[trigger] installed[j].handle@ != available[k].raw@
    &&& forall|j: int| 0 <= j < k ==> #[trigger] available[j].raw@ != available[k].raw@
}

/// A version passes the listing's spec filter.
pub open spec fn spec_ok(spec: Option<Seq<char>>, f: Seq<u32>) -> bool {
    match spec {
        Some(s) => text_fields_match(s, f),
        None => true,
    }
}

/// `x` is the kept installed row of a handle, at index `lo` or later,
/// whose version passes the filter.
pub open spec fn installed_listed(installed: Seq<Row>, spec: Option<Seq<char>>, x: RowView, lo: int) -> bool {
    exists|k: int|
        lo <= k && #[trigger] kept_installed(installed, k) && spec_ok(spec, installed[k].version.fields@)
            && row_view(installed[k]) == x
}

/// `x` is the row of one of the first `hi` available versions that adds a
/// row and passes the filter.
pub open spec fn available_listed(
    installed: Seq<Row>,
    available: Seq<Version>,
    spec: Option<Seq<char>>,
    x: RowView,
    hi: int,
) -> bool {
    exists|k: int|
        k < hi && #[trigger] adds_row(installed, available, k) && spec_ok(spec, available[k].fields@)
            && available_view(available[k]) == x
}

/// `x` is a row of the listing of `installed` and `available` under `spec`:
/// the kept installed row of a handle, or the row of an available version
/// adding one, whose version passes the filter.
pub open spec fn listed(
    installed: Seq<Row>,
    available: Seq<Version>,
    spec: Option<Seq<char>>,
    x: RowView,
) -> bool {
    installed_listed(installed, spec, x, 0) || available_listed(
        installed,
        available,
        spec,
        x,
        available.len() as int,
    )
}

/// `lists_before` is transitive.
pub proof fn lemma_lists_before_trans(a: RowView, b: RowView, c: RowView)
    requires
        lists_before(a, b),
        lists_before(b, c),
    ensures
        lists_before(a, c),
{
    lemma_version_order_antisymmetric(a.1, b.1);
    lemma_version_order_antisymmetric(b.1, c.1);
    lemma_version_order_antisymmetric(a.1, c.1);
    lemma_version_order_transitive(c.1, b.1, a.1);
    if version_order(a.1, b.1) == 0 && version_order(b.1, c.1) == 0 {
        lemma_version_order_transitive(a.1, b.1, c.1);
        lemma_text_less_trans(a.0, b.0, c.0);
    }
}

/// Rows of different handles are ordered one way or the other, not both.
pub proof fn lemma_lists_before_total(a: RowView, b: RowView)
    requires
        a.0 != b.0,
    ensures
        lists_before(a, b) || lists_before(b, a),
        !(lists_before(a, b) && lists_before(b, a)),
{
    lemma_version_order_antisymmetric(a.1, b.1);
    lemma_text_less_total(a.0, b.0);
}

/// Whether row `a` lists before row `b`.
fn lists_before_exec(a: &Row, b: &Row) -> (r: bool)
    ensures
        r == lists_before(row_view(*a), row_view(*b)),
{
    let c = a.version.compare_to(&b.version);
    if c > 0 {
        true
    } else if c == 0 {
        text_less_exec(&str_chars(a.handle.as_str()), &str_chars(b.handle.as_str()))
    } else {
        false
    }
}

/// Insert `x` into the strictly ordered `out` at its place.
fn insert_listed(out: &mut Vec<Row>, x: Row)
    requires
        listing_sorted(rows_view(old(out)@)),
        forall|i: int| 0 <= i < old(out)@.len() ==> #[trigger] rows_view(old(out)@)[i].0 != x.handle@,
    ensures
        listing_sorted(rows_view(final(out)@)),
        exists|p: int|
            0 <= p <= old(out)@.len() && rows_view(final(out)@) == #[trigger] rows_view(
                old(out)@,
            ).insert(p, row_view(x)),
{
    let ghost ov = rows_view(out@);
    let mut p: usize = 0;
    while p < out.len() && !lists_before_exec(&x, &out[p])
        invariant
            p <= out@.len(),
            out@ == old(out)@,
            ov == rows_view(out@),
            forall|i: int| 0 <= i < out@.len() ==> #[trigger] ov[i].0 != x.handle@,
            forall|i: int| 0 <= i < p ==> lists_before(#[trigger] ov[i], row_view(x)),
        decreases out.len() - p,
    {
        proof {
            lemma_lists_before_total(row_view(x), ov[p as int]);
        }
        p = p + 1;
    }
    let ghost xv = row_view(x);
    out.insert(p, x);
    proof {
        let nv = rows_view(out@);
        assert(nv =~= ov.insert(p as int, xv));
        assert forall|i: int, j: int| 0 <= i < j < nv.len() implies lists_before(
            #[trigger] nv[i],
            #[trigger] nv[j],
        ) by {
            if j < p {
                assert(nv[i] == ov[i] && nv[j] == ov[j]);
            } else if j == p {
                assert(nv[i] == ov[i]);
            } else if i == p {
                assert(nv[j] == ov[j - 1]);
                if j - 1 > p {
                    assert(lists_before(ov[p as int], ov[j - 1]));
                    lemma_lists_before_trans(xv, ov[p as int], ov[j - 1]);
                }
            } else if i < p {
                assert(nv[i] == ov[i] && nv[j] == ov[j - 1]);
                assert(lists_before(ov[i], xv));
                assert(lists_before(xv, ov[p as int]));
                lemma_lists_before_trans(ov[i], xv, ov[p as int]);
                if j - 1 > p {
                    lemma_lists_before_trans(ov[i], ov[p as int], ov[j - 1]);
                }
            } else {
                assert(nv[i] == ov[i - 1] && nv[j] == ov[j - 1]);
            }
        }
        assert(rows_view(out@) == ov.insert(p as int, xv));
    }
}

/// Inserting `x` adds exactly `x` to what a sequence contains.
proof fn lemma_insert_contains(ov: Seq<RowView>, p: int, x: RowView)
    requires
        0 <= p <= ov.len(),
    ensures
        forall|y: RowView| #[trigger] ov.insert(p, x).contains(y) <==> (ov.contains(y) || y == x),
{
    let nv = ov.insert(p, x);
    assert forall|y: RowView| #[trigger] nv.contains(y) <==> (ov.contains(y) || y == x) by {
        if nv.contains(y) {
            let i = choose|i: int| 0 <= i < nv.len() && nv[i] == y;
            if i < p {
                assert(ov[i] == y);
            } else if i > p {
                assert(ov[i - 1] == y);
            }
        }
        if ov.contains(y) {
            let i = choose|i: int| 0 <= i < ov.len() && ov[i] == y;
            if i < p {
                assert(nv[i] == y);
            } else {
                assert(nv[i + 1] == y);
            }
        }
        if y == x {
            assert(nv[p] == y);
        }
    }
}

/// Whether some handle among `handles[from..]` is `h`.
fn handle_among(handles: &Vec<String>, from: usize, h: &str) -> (r: bool)
    ensures
        r == exists|j: int| from <= j < handles@.len() && #[trigger] handles@[j]@ == h@,
{
    let mut j = from;
    while j < handles.len()
        invariant
            from <= j,
            forall|i: int| from <= i < j ==> #[trigger] handles@[i]@ != h@,
        decreases handles.len() - j,
    {
        if crate::text::str_eq(handles[j].as_str(), h) {
            assert(handles@[j as int]@ == h@);
            return true;
        }
        j = j + 1;
    }
    false
}

/// Whether an earlier version of `available` than `k` has the text of `available[k]`.
fn raw_before(available: &[Version], k: usize) -> (r: bool)
    requires
        k < available@.len(),
    ensures
        r == exists|j: int| 0 <= j < k && #[trigger] available@[j].raw@ == available@[k as int].raw@,
{
    let mut j: usize = 0;
    while j < k
        invariant
            j <= k < available@.len(),
            forall|i: int| 0 <= i < j ==> #[trigger] available@[i].raw@ != available@[k as int].raw@,
        decreases k - j,
    {
        if crate::text::str_eq(available[j].raw.as_str(), available[k].raw.as_str()) {
            assert(available@[j as int].raw@ == available@[k as int].raw@);
            return true;
        }
        j = j + 1;
    }
    false
}

/// The text of an optional spec.
pub open spec fn spec_view(spec: Option<&str>) -> Option<Seq<char>> {
    match spec {
        Some(s) => Some(s@),
        None => None,
    }
}

/// Whether a version passes the optional spec filter.
fn spec_ok_exec(spec: Option<&str>, v: &Version) -> (r: bool)
    ensures
        r == spec_ok(spec_view(spec), v.fields@),
{
    match spec {
        Some(s) => spec_matches(s, v),
        None => true,
    }
}

/// The kept installed rows passing the filter, in listing order.
fn installed_listing(installed: Vec<Row>, handles: &Vec<String>, spec: Option<&str>) -> (out: Vec<
    Row,
>)
    requires
        handles@.len() == installed@.len(),
        forall|j: int| 0 <= j < installed@.len() ==> #[trigger] handles@[j]@ == installed@[j].handle@,
    ensures
        listing_sorted(rows_view(out@)),
        forall|x: RowView|
            #[trigger] rows_view(out@).contains(x) <==> installed_listed(
                installed@,
                spec_view(spec),
                x,
                0,
            ),
{
    let ghost inst = installed@;
    let ghost sp = spec_view(spec);
    let mut rest = installed;
    let mut out: Vec<Row> = Vec::new();
    while rest.len() > 0
        invariant
            rest@.len() <= inst.len(),
            rest@ == inst.take(rest@.len() as int),
            handles@.len() == inst.len(),
            forall|j: int| 0 <= j < inst.len() ==> #[trigger] handles@[j]@ == inst[j].handle@,
            sp == spec_view(spec),
            listing_sorted(rows_view(out@)),
            forall|x: RowView|
                #[trigger] rows_view(out@).contains(x) <==> installed_listed(
                    inst,
                    sp,
                    x,
                    rest@.len() as int,
                ),
        decreases rest.len(),
    {
        let ghost ov = rows_view(out@);
        let k = rest.len() - 1;
        let row = rest.pop().unwrap();
        assert(row == inst[k as int]);
        assert(rest@ =~= inst.take(k as int));
        let later = handle_among(handles, k + 1, row.handle.as_str());
        if !later {
            assert forall|j: int| k < j < inst.len() implies #[trigger] inst[j].handle@
                != inst[k as int].handle@ by {
                assert(handles@[j]@ == inst[j].handle@);
            }
            assert(kept_installed(inst, k as int));
        } else {
            let ghost j = choose|j: int| k + 1 <= j < handles@.len() && #[trigger] handles@[j]@ == row.handle@;
            assert(handles@[j]@ == inst[j].handle@);
            assert(!kept_installed(inst, k as int));
        }
        if !later && spec_ok_exec(spec, &row.version) {
            assert forall|i: int| 0 <= i < out@.len() implies #[trigger] ov[i].0 != row.handle@ by {
                assert(ov.contains(ov[i]));
                let kk = choose|kk: int|
                    k + 1 <= kk && #[trigger] kept_installed(inst, kk) && spec_ok(sp, inst[kk].version.fields@)
                        && row_view(inst[kk]) == ov[i];
            }
            let ghost xv = row_view(row);
            insert_listed(&mut out, row);
            proof {
                let p = choose|p: int|
                    0 <= p <= ov.len() && rows_view(out@) == #[trigger] ov.insert(p, xv);
                lemma_insert_contains(ov, p, xv);
                assert forall|x: RowView| #[trigger] rows_view(out@).contains(x) <==> installed_listed(
                    inst,
                    sp,
                    x,
                    k as int,
                ) by {
                    if installed_listed(inst, sp, x, k as int) && x != xv {
                        let kk = choose|kk: int|
                            k <= kk && #[trigger] kept_installed(inst, kk) && spec_ok(sp, inst[kk].version.fields@)
                                && row_view(inst[kk]) == x;
                        assert(kk != k);
                        assert(installed_listed(inst, sp, x, k + 1));
                    }
                    if ov.contains(x) {
                        assert(installed_listed(inst, sp, x, k + 1));
                        let kk = choose|kk: int|
                            k + 1 <= kk && #[trigger] kept_installed(inst, kk) && spec_ok(sp, inst[kk].version.fields@)
                                && row_view(inst[kk]) == x;
                        assert(installed_listed(inst, sp, x, k as int));
                    }
                    if x == xv {
                        assert(installed_listed(inst, sp, x, k as int));
                    }
                }
            }
        } else {
            assert forall|x: RowView| #[trigger] rows_view(out@).contains(x) <==> installed_listed(
                inst,
                sp,
                x,
                k as int,
            ) by {
                if installed_listed(inst, sp, x, k as int) {
                    let kk = choose|kk: int|
                        k <= kk && #[trigger] kept_installed(inst, kk) && spec_ok(sp, inst[kk].version.fields@)
                            && row_view(inst[kk]) == x;
                    assert(kk != k);
                    assert(installed_listed(inst, sp, x, k + 1));
                }
                if installed_listed(inst, sp, x, k + 1) {
                    let kk = choose|kk: int|
                        k + 1 <= kk && #[trigger] kept_installed(inst, kk) && spec_ok(sp, inst[kk].version.fields@)
                            && row_view(inst[kk]) == x;
                    assert(installed_listed(inst, sp, x, k as int));
                }
            }
        }
    }
    out
}

/// `h` is an installed handle or the text of one of the first `k` available
/// versions.
pub open spec fn handle_from(handles: Seq<String>, available: Seq<Version>, k: int, h: Seq<char>) -> bool {
    ||| exists|kk: int| 0 <= kk < handles.len() && #[trigger] handles[kk]@ == h
    ||| exists|kk: int| 0 <= kk < k && #[trigger] available[kk].raw@ == h
}

/// The rows of `ls`: the installed rows (the last of a handle kept), then a
/// row for each available version whose text no installed row and no earlier
/// version has as handle; those whose version passes `spec`; newest version
/// first, rows of the same version by handle in text order.
pub fn listing_rows(installed: Vec<Row>, available: &[Version], spec: Option<&str>) -> (r: Vec<
    Row,
>)
    ensures
        listing_sorted(rows_view(r@)),
        forall|x: RowView|
            #[trigger] rows_view(r@).contains(x) <==> listed(
                installed@,
                available@,
                spec_view(spec),
                x,
            ),
{
    let ghost inst = installed@;
    let ghost sp = spec_view(spec);
    let mut handles: Vec<String> = Vec::new();
    let mut k: usize = 0;
    while k < installed.len()
        invariant
            k <= installed@.len(),
            installed@ == inst,
            handles@.len() == k,
            forall|j: int| 0 <= j < k ==> #[trigger] handles@[j]@ == inst[j].handle@,
        decreases installed.len() - k,
    {
        handles.push(installed[k].handle.clone());
        k = k + 1;
    }
    let mut out = installed_listing(installed, &handles, spec);
    proof {
        assert forall|i: int| 0 <= i < out@.len() implies handle_from(
            handles@,
            available@,
            0,
            #[trigger] rows_view(out@)[i].0,
        ) by {
            let x = rows_view(out@)[i];
            assert(rows_view(out@).contains(x));
            let kk = choose|kk: int|
                0 <= kk && #[trigger] kept_installed(inst, kk) && spec_ok(sp, inst[kk].version.fields@)
                    && row_view(inst[kk]) == x;
            assert(handles@[kk]@ == inst[kk].handle@);
        }
    }
    let mut k: usize = 0;
    while k < available.len()
        invariant
            k <= available@.len(),
            handles@.len() == inst.len(),
            forall|j: int| 0 <= j < inst.len() ==> #[trigger] handles@[j]@ == inst[j].handle@,
            sp == spec_view(spec),
            listing_sorted(rows_view(out@)),
            forall|x: RowView|
                #[trigger] rows_view(out@).contains(x) <==> (installed_listed(inst, sp, x, 0)
                    || available_listed(inst, available@, sp, x, k as int)),
            forall|i: int|
                0 <= i < out@.len() ==> handle_from(
                    handles@,
                    available@,
                    k as int,
                    #[trigger] rows_view(out@)[i].0,
                ),
        decreases available.len() - k,
    {
        let ghost ov = rows_view(out@);
        let v = &available[k];
        let taken = handle_among(&handles, 0, v.raw.as_str());
        let dup = raw_before(available, k);
        let adds = !taken && !dup;
        if adds {
            assert forall|j: int| 0 <= j < inst.len() implies #[trigger] inst[j].handle@
                != available@[k as int].raw@ by {
                assert(handles@[j]@ == inst[j].handle@);
            }
            assert(adds_row(inst, available@, k as int));
        } else if taken {
            let ghost j = choose|j: int| 0 <= j < handles@.len() && #[trigger] handles@[j]@ == v.raw@;
            assert(inst[j].handle@ == available@[k as int].raw@);
            assert(!adds_row(inst, available@, k as int));
        } else {
            let ghost j = choose|j: int| 0 <= j < k && #[trigger] available@[j].raw@ == available@[k as int].raw@;
            assert(!adds_row(inst, available@, k as int));
        }
        if adds && spec_ok_exec(spec, v) {
            let row = available_row(v);
            let ghost xv = row_view(row);
            assert(xv =~= available_view(available@[k as int]));
            assert forall|i: int| 0 <= i < out@.len() implies #[trigger] ov[i].0 != row.handle@ by {
                assert(handle_from(handles@, available@, k as int, ov[i].0));
                if exists|kk: int| 0 <= kk < handles@.len() && #[trigger] handles@[kk]@ == ov[i].0 {
                    let kk = choose|kk: int| 0 <= kk < handles@.len() && #[trigger] handles@[kk]@ == ov[i].0;
                    assert(handles@[kk]@ != v.raw@);
                } else {
                    let kk = choose|kk: int| 0 <= kk < k && #[trigger] available@[kk].raw@ == ov[i].0;
                    assert(available@[kk].raw@ != v.raw@);
                }
            }
            insert_listed(&mut out, row);
            proof {
                let p = choose|p: int|
                    0 <= p <= ov.len() && rows_view(out@) == #[trigger] ov.insert(p, xv);
                lemma_insert_contains(ov, p, xv);
                let nv = rows_view(out@);
                assert(nv.len() == ov.len() + 1);
                assert forall|x: RowView| #[trigger] nv.contains(x) <==> (installed_listed(inst, sp, x, 0)
                    || available_listed(inst, available@, sp, x, k + 1)) by {
                    if available_listed(inst, available@, sp, x, k + 1) && x != xv {
                        let kk = choose|kk: int|
                            kk < k + 1 && #[trigger] adds_row(inst, available@, kk) && spec_ok(sp, available@[kk].fields@)
                                && available_view(available@[kk]) == x;
                        assert(kk != k);
                        assert(available_listed(inst, available@, sp, x, k as int));
                    }
                    if available_listed(inst, available@, sp, x, k as int) {
                        let kk = choose|kk: int|
                            kk < k && #[trigger] adds_row(inst, available@, kk) && spec_ok(sp, available@[kk].fields@)
                                && available_view(available@[kk]) == x;
                        assert(available_listed(inst, available@, sp, x, k + 1));
                    }
                    if x == xv {
                        assert(available_listed(inst, available@, sp, x, k + 1));
                    }
                }
                assert forall|i: int| 0 <= i < out@.len() implies handle_from(
                    handles@,
                    available@,
                    k + 1,
                    #[trigger] nv[i].0,
                ) by {
                    if i < p {
                        assert(nv[i] == ov[i]);
                        assert(handle_from(handles@, available@, k as int, ov[i].0));
                    } else if i > p {
                        assert(nv[i] == ov[i - 1]);
                        assert(handle_from(handles@, available@, k as int, ov[i - 1].0));
                    } else {
                        assert(available@[k as int].raw@ == nv[i].0);
                    }
                }
            }
        } else {
            assert forall|x: RowView| #[trigger] ov.contains(x) <==> (installed_listed(inst, sp, x, 0)
                || available_listed(inst, available@, sp, x, k + 1)) by {
                if available_listed(inst, available@, sp, x, k + 1) {
                    let kk = choose|kk: int|
                        kk < k + 1 && #[trigger] adds_row(inst, available@, kk) && spec_ok(sp, available@[kk].fields@)
                            && available_view(available@[kk]) == x;
                    assert(kk != k);
                    assert(available_listed(inst, available@, sp, x, k as int));
                }
                if available_listed(inst, available@, sp, x, k as int) {
                    let kk = choose|kk: int|
                        kk < k && #[trigger] adds_row(inst, available@, kk) && spec_ok(sp, available@[kk].fields@)
                            && available_view(available@[kk]) == x;
                    assert(available_listed(inst, available@, sp, x, k + 1));
                }
            }
            assert forall|i: int| 0 <= i < out@.len() implies handle_from(
                handles@,
                available@,
                k + 1,
                #[trigger] ov[i].0,
            ) by {
                assert(handle_from(handles@, available@, k as int, ov[i].0));
            }
        }
        k = k + 1;
    }
    out
}

} // verus!
