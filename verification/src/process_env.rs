//! The child-process environment for `cuvm exec` / `cuvm shell`.
//!
//! Mirrors the activator contract: strip every segment recorded in the
//! *current* `CUVM_INJECTED` breadcrumb first (so re-activating inside an
//! active shell never double-prepends), then prepend the plan's `bin`/`lib64`
//! segments. Segments outside the breadcrumb survive in their order.
use vstd::prelude::*;
use vstd::string::*;

use crate::domain::Os;
use crate::env_plan::EnvPlan;
use crate::text::{
    eq_ignore_ascii_case, eq_ignore_ascii_case_exec, join, join_chars, lacks, lemma_split_fields_lack,
    lemma_split_join, lemma_split_lacking, lemma_split_nonempty, parts_view, replace_char, replace_char_exec, split, split_chars, str_chars,
    string_from_chars, string_of, strings_view,
};

verus! {

/// One environment-variable assignment to apply to a child process.
#[derive(Debug, Clone, PartialEq, Eq)]
pub struct EnvVar {
    pub key: String,
    pub value: String,
}

impl EnvVar {
    fn new(key: &str, value: String) -> (r: EnvVar)
        ensures
            r.key@ == key@,
            r.value@ == value@,
    {
        EnvVar { key: string_of(key), value }
    }
}

/// The (key, value) characters of each assignment.
pub open spec fn env_view(v: Seq<EnvVar>) -> Seq<(Seq<char>, Seq<char>)> {
    Seq::new(v.len(), |i: int| (v[i].key@, v[i].value@))
}

/// The PATH-list separator for `os` (`;` on Windows, `:` elsewhere).
pub open spec fn sep_char(os: Os) -> char {
    match os {
        Os::Windows => ';',
        Os::Linux => ':',
    }
}

fn separator(os: Os) -> (c: char)
    ensures
        c == sep_char(os),
{
    match os {
        Os::Windows => ';',
        Os::Linux => ':',
    }
}

/// Paths as written for `os`: `/` becomes `\` on Windows.
pub open spec fn norm_path(s: Seq<char>, os: Os) -> Seq<char> {
    if os == Os::Windows {
        replace_char(s, '/', '\\')
    } else {
        s
    }
}

pub open spec fn norm_all(v: Seq<Seq<char>>, os: Os) -> Seq<Seq<char>> {
    Seq::new(v.len(), |i: int| norm_path(v[i], os))
}

/// Whether `seg` is the breadcrumb entry `crumb`: by ASCII case-insensitive
/// comparison on Windows, exactly elsewhere.
pub open spec fn matches_crumb(seg: Seq<char>, crumb: Seq<char>, windows: bool) -> bool {
    if windows {
        eq_ignore_ascii_case(crumb, seg)
    } else {
        crumb == seg
    }
}

pub open spec fn in_breadcrumb(seg: Seq<char>, crumbs: Seq<Seq<char>>, windows: bool) -> bool {
    exists|i: int| 0 <= i < crumbs.len() && #[trigger] matches_crumb(seg, crumbs[i], windows)
}

/// The non-empty segments, in order.
pub open spec fn nonempty_segs(parts: Seq<Seq<char>>) -> Seq<Seq<char>>
    decreases parts.len(),
{
    if parts.len() == 0 {
        Seq::<Seq<char>>::empty()
    } else if parts.last().len() > 0 {
        nonempty_segs(parts.drop_last()).push(parts.last())
    } else {
        nonempty_segs(parts.drop_last())
    }
}

/// The non-empty segments that are not in the breadcrumb, in order.
pub open spec fn kept_segs(parts: Seq<Seq<char>>, crumbs: Seq<Seq<char>>, windows: bool) -> Seq<
    Seq<char>,
>
    decreases parts.len(),
{
    if parts.len() == 0 {
        Seq::<Seq<char>>::empty()
    } else if parts.last().len() > 0 && !in_breadcrumb(parts.last(), crumbs, windows) {
        kept_segs(parts.drop_last(), crumbs, windows).push(parts.last())
    } else {
        kept_segs(parts.drop_last(), crumbs, windows)
    }
}

/// The pieces of each entry of `xs` between separators, entry after entry.
pub open spec fn split_all(xs: Seq<Seq<char>>, sep: char) -> Seq<Seq<char>>
    decreases xs.len(),
{
    if xs.len() == 0 {
        Seq::<Seq<char>>::empty()
    } else {
        split_all(xs.drop_last(), sep) + split(xs.last(), sep)
    }
}

/// The segments a list of prepend entries contributes: each entry split at
/// the separator, empty pieces dropped.
pub open spec fn prepend_segs(prepend: Seq<Seq<char>>, sep: char) -> Seq<Seq<char>> {
    nonempty_segs(split_all(prepend, sep))
}

/// The segments of the search path `cur` that survive the breadcrumb
/// `crumbs`, behind the segments of `prepend`, joined by `sep`.
pub open spec fn strip_then_prepend(
    cur: Seq<char>,
    crumbs: Seq<Seq<char>>,
    prepend: Seq<Seq<char>>,
    sep: char,
    windows: bool,
) -> Seq<char> {
    join(prepend_segs(prepend, sep) + kept_segs(split(cur, sep), crumbs, windows), seq![sep])
}

/// The breadcrumb a new activation records: the `bin` segments, plus the
/// `lib64` segments off Windows (where the library path is `PATH` itself).
pub open spec fn new_breadcrumb(plan: EnvPlan, os: Os) -> Seq<Seq<char>> {
    let pp = norm_all(strings_view(plan.prepend_path@), os);
    let pl = norm_all(strings_view(plan.prepend_lib@), os);
    if os == Os::Windows {
        pp
    } else {
        pp + pl
    }
}

/// The assignments that activate `plan` on `os`, given the current values of
/// `CUVM_INJECTED`, `PATH` and `LD_LIBRARY_PATH` (empty when unset), in the
/// order `CUDA_HOME`, `CUDA_PATH`, `CUDAToolkit_ROOT`, `PATH`,
/// (`LD_LIBRARY_PATH` off Windows), `CUVM_CURRENT`, `CUVM_INJECTED`.
pub open spec fn activation_env(
    plan: EnvPlan,
    os: Os,
    injected: Seq<char>,
    path: Seq<char>,
    lib: Seq<char>,
) -> Seq<(Seq<char>, Seq<char>)> {
    let sep = sep_char(os);
    let w = os == Os::Windows;
    let pp = norm_all(strings_view(plan.prepend_path@), os);
    let pl = norm_all(strings_view(plan.prepend_lib@), os);
    let crumbs = nonempty_segs(split(injected, sep));
    let head = seq![
        ("CUDA_HOME"@, norm_path(plan.cuda_home@, os)),
        ("CUDA_PATH"@, norm_path(plan.cuda_path@, os)),
        ("CUDAToolkit_ROOT"@, norm_path(plan.toolkit_root@, os)),
        ("PATH"@, strip_then_prepend(path, crumbs, pp, sep, w)),
    ];
    let mid = if w {
        Seq::<(Seq<char>, Seq<char>)>::empty()
    } else {
        seq![("LD_LIBRARY_PATH"@, strip_then_prepend(lib, crumbs, pl, sep, w))]
    };
    head + mid + seq![
        ("CUVM_CURRENT"@, plan.current@),
        ("CUVM_INJECTED"@, join(new_breadcrumb(plan, os), seq![sep])),
    ]
}

/// The characters of an optional value, empty when absent.
pub open spec fn opt_chars(o: Option<String>) -> Seq<char> {
    match o {
        Some(s) => s@,
        None => Seq::<char>::empty(),
    }
}

fn opt_vec(o: &Option<String>) -> (r: Vec<char>)
    ensures
        r@ == opt_chars(*o),
{
    match o {
        Some(s) => str_chars(s.as_str()),
        None => Vec::new(),
    }
}

fn norm_exec(s: &Vec<char>, os: Os) -> (r: Vec<char>)
    ensures
        r@ == norm_path(s@, os),
{
    match os {
        Os::Windows => replace_char_exec(s, '/', '\\'),
        Os::Linux => {
            let mut r: Vec<char> = Vec::new();
            crate::text::extend_chars(&mut r, s);
            assert(r@ =~= s@);
            r
        },
    }
}

fn norm_strings(v: &Vec<String>, os: Os) -> (r: Vec<Vec<char>>)
    ensures
        parts_view(r@) == norm_all(strings_view(v@), os),
{
    let mut out: Vec<Vec<char>> = Vec::new();
    let mut i: usize = 0;
    while i < v.len()
        invariant
            i <= v@.len(),
            parts_view(out@) == norm_all(strings_view(v@), os).subrange(0, i as int),
        decreases v.len() - i,
    {
        let c = str_chars(v[i].as_str());
        let n = norm_exec(&c, os);
        assert(n@ == norm_all(strings_view(v@), os)[i as int]);
        let ghost before = parts_view(out@);
        out.push(n);
        assert(parts_view(out@) =~= before.push(norm_all(strings_view(v@), os)[i as int]));
        i = i + 1;
        assert(parts_view(out@) =~= norm_all(strings_view(v@), os).subrange(0, i as int));
    }
    assert(norm_all(strings_view(v@), os).subrange(0, v@.len() as int) =~= norm_all(
        strings_view(v@),
        os,
    ));
    out
}

fn nonempty_exec(parts: &Vec<Vec<char>>) -> (r: Vec<Vec<char>>)
    ensures
        parts_view(r@) == nonempty_segs(parts_view(parts@)),
{
    let mut out: Vec<Vec<char>> = Vec::new();
    let mut i: usize = 0;
    while i < parts.len()
        invariant
            i <= parts@.len(),
            parts_view(out@) == nonempty_segs(parts_view(parts@).take(i as int)),
        decreases parts.len() - i,
    {
        let ghost pv = parts_view(parts@);
        assert(pv.take(i + 1).drop_last() =~= pv.take(i as int));
        if parts[i].len() > 0 {
            let ghost before = parts_view(out@);
            out.push(parts[i].clone());
            assert(parts_view(out@) =~= before.push(pv[i as int]));
        }
        i = i + 1;
    }
    assert(parts_view(parts@).take(parts@.len() as int) =~= parts_view(parts@));
    out
}

fn in_breadcrumb_exec(seg: &Vec<char>, crumbs: &Vec<Vec<char>>, windows: bool) -> (r: bool)
    ensures
        r == in_breadcrumb(seg@, parts_view(crumbs@), windows),
{
    let mut i: usize = 0;
    while i < crumbs.len()
        invariant
            i <= crumbs@.len(),
            forall|k: int|
                0 <= k < i ==> !#[trigger] matches_crumb(seg@, parts_view(crumbs@)[k], windows),
        decreases crumbs.len() - i,
    {
        let hit = if windows {
            eq_ignore_ascii_case_exec(&crumbs[i], seg)
        } else {
            crate::text::chars_eq(&crumbs[i], seg)
        };
        if hit {
            assert(matches_crumb(seg@, parts_view(crumbs@)[i as int], windows));
            return true;
        }
        i = i + 1;
    }
    false
}

fn kept_exec(parts: &Vec<Vec<char>>, crumbs: &Vec<Vec<char>>, windows: bool) -> (r: Vec<
    Vec<char>,
>)
    ensures
        parts_view(r@) == kept_segs(parts_view(parts@), parts_view(crumbs@), windows),
{
    let mut out: Vec<Vec<char>> = Vec::new();
    let mut i: usize = 0;
    while i < parts.len()
        invariant
            i <= parts@.len(),
            parts_view(out@) == kept_segs(
                parts_view(parts@).take(i as int),
                parts_view(crumbs@),
                windows,
            ),
        decreases parts.len() - i,
    {
        let ghost pv = parts_view(parts@);
        assert(pv.take(i + 1).drop_last() =~= pv.take(i as int));
        if parts[i].len() > 0 && !in_breadcrumb_exec(&parts[i], crumbs, windows) {
            let ghost before = parts_view(out@);
            out.push(parts[i].clone());
            assert(parts_view(out@) =~= before.push(pv[i as int]));
        }
        i = i + 1;
    }
    assert(parts_view(parts@).take(parts@.len() as int) =~= parts_view(parts@));
    out
}

fn append_parts(a: &mut Vec<Vec<char>>, b: Vec<Vec<char>>)
    ensures
        parts_view(final(a)@) == parts_view(old(a)@) + parts_view(b@),
{
    let mut i: usize = 0;
    while i < b.len()
        invariant
            i <= b@.len(),
            parts_view(a@) == parts_view(old(a)@) + parts_view(b@).take(i as int),
        decreases b.len() - i,
    {
        let ghost before = parts_view(a@);
        let item = b[i].clone();
        assert(item@ == parts_view(b@)[i as int]);
        a.push(item);
        assert(parts_view(a@) =~= before.push(parts_view(b@)[i as int]));
        assert(parts_view(b@).take(i + 1) =~= parts_view(b@).take(i as int).push(
            parts_view(b@)[i as int],
        ));
        i = i + 1;
        assert(parts_view(a@) =~= parts_view(old(a)@) + parts_view(b@).take(i as int));
    }
    assert(parts_view(b@).take(b@.len() as int) =~= parts_view(b@));
}

fn split_all_exec(xs: &Vec<Vec<char>>, sep: char) -> (r: Vec<Vec<char>>)
    ensures
        parts_view(r@) == split_all(parts_view(xs@), sep),
{
    let ghost xv = parts_view(xs@);
    let mut out: Vec<Vec<char>> = Vec::new();
    let mut i: usize = 0;
    while i < xs.len()
        invariant
            i <= xs@.len(),
            xv == parts_view(xs@),
            parts_view(out@) == split_all(xv.take(i as int), sep),
        decreases xs.len() - i,
    {
        assert(xv.take(i + 1).drop_last() =~= xv.take(i as int));
        assert(xv.take(i + 1).last() == xs@[i as int]@);
        let pieces = split_chars(&xs[i], sep);
        append_parts(&mut out, pieces);
        i = i + 1;
    }
    assert(xv.take(xs@.len() as int) =~= xv);
    out
}

fn strip_then_prepend_exec(
    current: &Vec<char>,
    crumbs: &Vec<Vec<char>>,
    prepend: &Vec<Vec<char>>,
    sep: char,
    windows: bool,
) -> (r: Vec<char>)
    ensures
        r@ == strip_then_prepend(current@, parts_view(crumbs@), parts_view(prepend@), sep, windows),
{
    let parts = split_chars(current, sep);
    let kept = kept_exec(&parts, crumbs, windows);
    let pieces = split_all_exec(prepend, sep);
    let mut all = nonempty_exec(&pieces);
    append_parts(&mut all, kept);
    join_chars(&all, sep)
}

/// The assignments that activate `plan` on `os`, from the current values of
/// `CUVM_INJECTED`, `PATH` and `LD_LIBRARY_PATH` (the last is not consulted
/// on Windows).
pub fn activation_vars(
    plan: &EnvPlan,
    os: Os,
    injected: Option<String>,
    path: Option<String>,
    lib: Option<String>,
) -> (r: Vec<EnvVar>)
    ensures
        env_view(r@) == activation_env(
            *plan,
            os,
            opt_chars(injected),
            opt_chars(path),
            opt_chars(lib),
        ),
{
    let sep = separator(os);
    let windows = match os {
        Os::Windows => true,
        Os::Linux => false,
    };
    let prepend_path = norm_strings(&plan.prepend_path, os);
    let prepend_lib = norm_strings(&plan.prepend_lib, os);
    let mut new_injected = norm_strings(&plan.prepend_path, os);
    if !windows {
        let extra = norm_strings(&plan.prepend_lib, os);
        append_parts(&mut new_injected, extra);
    }
    let inj = opt_vec(&injected);
    let inj_parts = split_chars(&inj, sep);
    let crumbs = nonempty_exec(&inj_parts);
    let cur_path = opt_vec(&path);
    let new_path = strip_then_prepend_exec(&cur_path, &crumbs, &prepend_path, sep, windows);
    let home = norm_exec(&str_chars(plan.cuda_home.as_str()), os);
    let cpath = norm_exec(&str_chars(plan.cuda_path.as_str()), os);
    let root = norm_exec(&str_chars(plan.toolkit_root.as_str()), os);
    let mut out: Vec<EnvVar> = Vec::new();
    out.push(EnvVar::new("CUDA_HOME", string_from_chars(&home)));
    out.push(EnvVar::new("CUDA_PATH", string_from_chars(&cpath)));
    out.push(EnvVar::new("CUDAToolkit_ROOT", string_from_chars(&root)));
    out.push(EnvVar::new("PATH", string_from_chars(&new_path)));
    if !windows {
        let cur_lib = opt_vec(&lib);
        let new_lib = strip_then_prepend_exec(&cur_lib, &crumbs, &prepend_lib, sep, windows);
        out.push(EnvVar::new("LD_LIBRARY_PATH", string_from_chars(&new_lib)));
    }
    out.push(EnvVar::new("CUVM_CURRENT", plan.current.clone()));
    let crumb_text = join_chars(&new_injected, sep);
    out.push(EnvVar::new("CUVM_INJECTED", string_from_chars(&crumb_text)));
    assert(env_view(out@) =~= activation_env(
        *plan,
        os,
        opt_chars(injected),
        opt_chars(path),
        opt_chars(lib),
    ));
    out
}

/// Build the full set of env-var assignments that activate `plan` in a child
/// process on `os`, given a reader for the *current* process environment.
///
/// `get(name)` returns the current value of an env var (`None` if unset); it
/// is asked for `CUVM_INJECTED`, `PATH` and, off Windows, `LD_LIBRARY_PATH`.
/// The result is [`activation_vars`] of whatever it answered.
pub fn process_env<F: Fn(&str) -> Option<String>>(plan: &EnvPlan, os: Os, get: F) -> (r: Vec<
    EnvVar,
>)
    requires
        forall|k: &str| #[trigger] get.requires((k,)),
    ensures
        exists|ki: &str, kp: &str, i: Option<String>, p: Option<String>|
            {
                &&& ki@ == "CUVM_INJECTED"@
                &&& kp@ == "PATH"@
                &&& #[trigger] get.ensures((ki,), i)
                &&& #[trigger] get.ensures((kp,), p)
                &&& if os == Os::Windows {
                    env_view(r@) == activation_env(
                        *plan,
                        os,
                        opt_chars(i),
                        opt_chars(p),
                        Seq::<char>::empty(),
                    )
                } else {
                    exists|kl: &str, l: Option<String>|
                        {
                            &&& kl@ == "LD_LIBRARY_PATH"@
                            &&& #[trigger] get.ensures((kl,), l)
                            &&& env_view(r@) == activation_env(
                                *plan,
                                os,
                                opt_chars(i),
                                opt_chars(p),
                                opt_chars(l),
                            )
                        }
                }
            },
{
    let ki = "CUVM_INJECTED";
    let kp = "PATH";
    let injected = get(ki);
    let path = get(kp);
    match os {
        Os::Windows => {
            let r = activation_vars(plan, os, injected, path, None);
            assert(get.ensures((ki,), injected) && get.ensures((kp,), path));
            r
        },
        Os::Linux => {
            let kl = "LD_LIBRARY_PATH";
            let lib = get(kl);
            let r = activation_vars(plan, os, injected, path, lib);
            assert(get.ensures((kl,), lib));
            assert(get.ensures((ki,), injected) && get.ensures((kp,), path));
            r
        },
    }
}

/// What `nonempty_segs` keeps: non-empty inputs, each of them.
proof fn lemma_nonempty_segs(parts: Seq<Seq<char>>)
    ensures
        forall|i: int|
            0 <= i < nonempty_segs(parts).len() ==> (#[trigger] nonempty_segs(parts)[i]).len() > 0
                && exists|j: int| 0 <= j < parts.len() && parts[j] == nonempty_segs(parts)[i],
        forall|j: int|
            0 <= j < parts.len() && (#[trigger] parts[j]).len() > 0 ==> exists|i: int|
                0 <= i < nonempty_segs(parts).len() && nonempty_segs(parts)[i] == parts[j],
    decreases parts.len(),
{
    if parts.len() > 0 {
        let init = parts.drop_last();
        lemma_nonempty_segs(init);
        let r = nonempty_segs(parts);
        let ri = nonempty_segs(init);
        assert forall|i: int| 0 <= i < r.len() implies (#[trigger] r[i]).len() > 0 && exists|j: int|
            0 <= j < parts.len() && parts[j] == r[i] by {
            if i < ri.len() {
                assert(r[i] == ri[i]);
                let j = choose|j: int| 0 <= j < init.len() && init[j] == ri[i];
                assert(parts[j] == init[j]);
            } else {
                assert(r[i] == parts.last());
                assert(parts[parts.len() - 1] == r[i]);
            }
        }
        assert forall|j: int| 0 <= j < parts.len() && (#[trigger] parts[j]).len() > 0 implies exists|i: int|
            0 <= i < r.len() && r[i] == parts[j] by {
            if j < init.len() {
                assert(init[j] == parts[j]);
                let i = choose|i: int| 0 <= i < ri.len() && ri[i] == init[j];
                assert(r[i] == ri[i]);
            } else {
                assert(r[r.len() - 1] == parts[j]);
            }
        }
    }
}

/// What `kept_segs` keeps: non-empty inputs outside the breadcrumb, each of
/// them.
proof fn lemma_kept_segs(parts: Seq<Seq<char>>, crumbs: Seq<Seq<char>>, windows: bool)
    ensures
        forall|i: int|
            0 <= i < kept_segs(parts, crumbs, windows).len() ==> (#[trigger] kept_segs(
                parts,
                crumbs,
                windows,
            )[i]).len() > 0 && !in_breadcrumb(kept_segs(parts, crumbs, windows)[i], crumbs, windows)
                && exists|j: int| 0 <= j < parts.len() && parts[j] == kept_segs(parts, crumbs, windows)[i],
    decreases parts.len(),
{
    if parts.len() > 0 {
        let init = parts.drop_last();
        lemma_kept_segs(init, crumbs, windows);
        let r = kept_segs(parts, crumbs, windows);
        let ri = kept_segs(init, crumbs, windows);
        assert forall|i: int| 0 <= i < r.len() implies (#[trigger] r[i]).len() > 0 && !in_breadcrumb(
            r[i],
            crumbs,
            windows,
        ) && exists|j: int| 0 <= j < parts.len() && parts[j] == r[i] by {
            if i < ri.len() {
                assert(r[i] == ri[i]);
                let j = choose|j: int| 0 <= j < init.len() && init[j] == ri[i];
                assert(parts[j] == init[j]);
            } else {
                assert(r[i] == parts.last());
                assert(parts[parts.len() - 1] == r[i]);
            }
        }
    }
}

/// Keeping distributes over concatenation.
proof fn lemma_kept_concat(a: Seq<Seq<char>>, b: Seq<Seq<char>>, crumbs: Seq<Seq<char>>, windows: bool)
    ensures
        kept_segs(a + b, crumbs, windows) == kept_segs(a, crumbs, windows) + kept_segs(
            b,
            crumbs,
            windows,
        ),
    decreases b.len(),
{
    if b.len() == 0 {
        assert(a + b =~= a);
        assert(kept_segs(b, crumbs, windows) =~= Seq::<Seq<char>>::empty());
        assert(kept_segs(a, crumbs, windows) + kept_segs(b, crumbs, windows) =~= kept_segs(
            a,
            crumbs,
            windows,
        ));
    } else {
        lemma_kept_concat(a, b.drop_last(), crumbs, windows);
        assert((a + b).drop_last() =~= a + b.drop_last());
        assert((a + b).last() == b.last());
        let ka = kept_segs(a, crumbs, windows);
        let kb = kept_segs(b.drop_last(), crumbs, windows);
        if b.last().len() > 0 && !in_breadcrumb(b.last(), crumbs, windows) {
            assert((ka + kb).push(b.last()) =~= ka + kb.push(b.last()));
        }
    }
}

/// Keeping what the breadcrumb holds entirely keeps nothing.
proof fn lemma_kept_none(a: Seq<Seq<char>>, crumbs: Seq<Seq<char>>, windows: bool)
    requires
        forall|j: int|
            0 <= j < a.len() ==> (#[trigger] a[j]).len() == 0 || in_breadcrumb(a[j], crumbs, windows),
    ensures
        kept_segs(a, crumbs, windows) == Seq::<Seq<char>>::empty(),
    decreases a.len(),
{
    if a.len() > 0 {
        let init = a.drop_last();
        assert forall|j: int| 0 <= j < init.len() implies (#[trigger] init[j]).len() == 0
            || in_breadcrumb(init[j], crumbs, windows) by {
            assert(init[j] == a[j]);
        }
        lemma_kept_none(init, crumbs, windows);
        assert(a[a.len() - 1].len() == 0 || in_breadcrumb(a[a.len() - 1], crumbs, windows));
    }
}

/// Keeping what the breadcrumb does not hold keeps everything non-empty.
proof fn lemma_kept_all(a: Seq<Seq<char>>, crumbs: Seq<Seq<char>>, windows: bool)
    requires
        forall|j: int|
            0 <= j < a.len() ==> (#[trigger] a[j]).len() > 0 && !in_breadcrumb(a[j], crumbs, windows),
    ensures
        kept_segs(a, crumbs, windows) == a,
    decreases a.len(),
{
    if a.len() > 0 {
        let init = a.drop_last();
        assert forall|j: int| 0 <= j < init.len() implies (#[trigger] init[j]).len() > 0
            && !in_breadcrumb(init[j], crumbs, windows) by {
            assert(init[j] == a[j]);
        }
        lemma_kept_all(init, crumbs, windows);
        assert(a[a.len() - 1].len() > 0);
        assert(init.push(a.last()) =~= a);
    } else {
        assert(a =~= Seq::<Seq<char>>::empty());
    }
}

/// Splitting `a`, the separator, then `b` gives the fields of `a`, then
/// those of `b`.
proof fn lemma_split_concat(a: Seq<char>, b: Seq<char>, sep: char)
    ensures
        split(a + seq![sep] + b, sep) == split(a, sep) + split(b, sep),
    decreases b.len(),
{
    let s = a + seq![sep] + b;
    if b.len() == 0 {
        assert(s.drop_last() =~= a);
        assert(b =~= Seq::<char>::empty());
        assert(split(a, sep).push(Seq::<char>::empty()) =~= split(a, sep) + seq![
            Seq::<char>::empty(),
        ]);
    } else {
        let d = b.drop_last();
        lemma_split_concat(a, d, sep);
        assert(s.drop_last() =~= a + seq![sep] + d);
        assert(s.last() == b.last());
        let p = split(s.drop_last(), sep);
        let q = split(d, sep);
        lemma_split_nonempty(d, sep);
        assert(d.push(b.last()) =~= b);
        if b.last() == sep {
            assert(p.push(Seq::<char>::empty()) =~= split(a, sep) + q.push(Seq::<char>::empty()));
        } else {
            assert(p.update(p.len() - 1, p.last().push(s.last())) =~= split(a, sep) + q.update(
                q.len() - 1,
                q.last().push(b.last()),
            ));
        }
    }
}

/// Joining entries by the separator and splitting again gives each entry's
/// pieces.
proof fn lemma_split_join_all(xs: Seq<Seq<char>>, sep: char)
    requires
        xs.len() > 0,
    ensures
        split(join(xs, seq![sep]), sep) == split_all(xs, sep),
    decreases xs.len(),
{
    let init = xs.drop_last();
    if xs.len() == 1 {
        assert(init =~= Seq::<Seq<char>>::empty());
        assert(split_all(init, sep) + split(xs.last(), sep) =~= split(xs[0], sep));
    } else {
        lemma_split_join_all(init, sep);
        lemma_split_concat(join(init, seq![sep]), xs.last(), sep);
    }
}

proof fn lemma_split_all_concat(a: Seq<Seq<char>>, b: Seq<Seq<char>>, sep: char)
    ensures
        split_all(a + b, sep) == split_all(a, sep) + split_all(b, sep),
    decreases b.len(),
{
    if b.len() == 0 {
        assert(a + b =~= a);
        assert(split_all(a, sep) + split_all(b, sep) =~= split_all(a, sep));
    } else {
        lemma_split_all_concat(a, b.drop_last(), sep);
        assert((a + b).drop_last() =~= a + b.drop_last());
        assert((a + b).last() == b.last());
        assert(split_all(a, sep) + split_all(b.drop_last(), sep) + split(b.last(), sep) =~= split_all(
            a,
            sep,
        ) + (split_all(b.drop_last(), sep) + split(b.last(), sep)));
    }
}

/// No piece holds the separator.
proof fn lemma_split_all_lack(xs: Seq<Seq<char>>, sep: char)
    ensures
        forall|i: int|
            0 <= i < split_all(xs, sep).len() ==> lacks(#[trigger] split_all(xs, sep)[i], sep),
    decreases xs.len(),
{
    if xs.len() > 0 {
        lemma_split_all_lack(xs.drop_last(), sep);
        lemma_split_fields_lack(xs.last(), sep);
        let a = split_all(xs.drop_last(), sep);
        let b = split(xs.last(), sep);
        assert forall|i: int| 0 <= i < (a + b).len() implies lacks(#[trigger] (a + b)[i], sep) by {
            if i < a.len() {
                assert((a + b)[i] == a[i]);
            } else {
                assert((a + b)[i] == b[i - a.len()]);
            }
        }
    }
}

/// A search path joined from non-empty segments without the separator: it
/// is empty, or splitting it gives those segments back.
proof fn lemma_joined_segments(segs: Seq<Seq<char>>, sep: char)
    requires
        forall|i: int| 0 <= i < segs.len() ==> lacks(#[trigger] segs[i], sep),
    ensures
        segs.len() == 0 ==> join(segs, seq![sep]) == Seq::<char>::empty(),
        segs.len() > 0 ==> split(join(segs, seq![sep]), sep) == segs,
{
    if segs.len() > 0 {
        lemma_split_join(segs, sep);
    }
}

/// The segments of a new search path: the prepend segments, then the
/// segments of the current value outside the breadcrumb. None is empty and
/// none holds the separator.
proof fn lemma_new_path_segments(
    cur: Seq<char>,
    crumbs: Seq<Seq<char>>,
    prepend: Seq<Seq<char>>,
    sep: char,
    windows: bool,
)
    ensures
        ({
            let segs = prepend_segs(prepend, sep) + kept_segs(split(cur, sep), crumbs, windows);
            &&& forall|i: int| 0 <= i < segs.len() ==> (#[trigger] segs[i]).len() > 0
            &&& forall|i: int| 0 <= i < segs.len() ==> lacks(#[trigger] segs[i], sep)
        }),
{
    let pieces = split_all(prepend, sep);
    let a = prepend_segs(prepend, sep);
    let b = kept_segs(split(cur, sep), crumbs, windows);
    let segs = a + b;
    lemma_nonempty_segs(pieces);
    lemma_split_all_lack(prepend, sep);
    lemma_kept_segs(split(cur, sep), crumbs, windows);
    lemma_split_fields_lack(cur, sep);
    assert forall|i: int| 0 <= i < segs.len() implies (#[trigger] segs[i]).len() > 0 && lacks(
        segs[i],
        sep,
    ) by {
        if i < a.len() {
            assert(segs[i] == a[i]);
            let j = choose|j: int| 0 <= j < pieces.len() && pieces[j] == a[i];
            assert(lacks(pieces[j], sep));
        } else {
            assert(segs[i] == b[i - a.len()]);
            let j = choose|j: int|
                0 <= j < split(cur, sep).len() && split(cur, sep)[j] == b[i - a.len()];
            assert(lacks(split(cur, sep)[j], sep));
        }
    }
}

/// Entries without the separator split into themselves.
proof fn lemma_split_all_lacking(xs: Seq<Seq<char>>, sep: char)
    requires
        forall|i: int| 0 <= i < xs.len() ==> lacks(#[trigger] xs[i], sep),
    ensures
        split_all(xs, sep) == xs,
    decreases xs.len(),
{
    if xs.len() > 0 {
        let init = xs.drop_last();
        assert forall|i: int| 0 <= i < init.len() implies lacks(#[trigger] init[i], sep) by {
            assert(init[i] == xs[i]);
        }
        lemma_split_all_lacking(init, sep);
        lemma_split_lacking(xs.last(), sep);
        assert(init + seq![xs.last()] =~= xs);
    } else {
        assert(xs =~= Seq::<Seq<char>>::empty());
    }
}

/// Prepend entries without the separator: the new search path is the
/// non-empty entries, in order, then the non-empty segments of the current
/// value outside the breadcrumb, in order, joined by the separator.
pub proof fn lemma_prepend_without_separator(
    cur: Seq<char>,
    crumbs: Seq<Seq<char>>,
    prepend: Seq<Seq<char>>,
    sep: char,
    windows: bool,
)
    requires
        forall|i: int| 0 <= i < prepend.len() ==> lacks(#[trigger] prepend[i], sep),
    ensures
        strip_then_prepend(cur, crumbs, prepend, sep, windows) == join(
            nonempty_segs(prepend) + kept_segs(split(cur, sep), crumbs, windows),
            seq![sep],
        ),
{
    lemma_split_all_lacking(prepend, sep);
}

/// No empty segment: the search path an activation computes is empty or
/// splits into non-empty segments only (an empty one would put the working
/// directory on the search path), whatever the current value and the prepend
/// entries hold.
pub proof fn lemma_no_empty_segment(
    cur: Seq<char>,
    crumbs: Seq<Seq<char>>,
    prepend: Seq<Seq<char>>,
    sep: char,
    windows: bool,
)
    ensures
        strip_then_prepend(cur, crumbs, prepend, sep, windows).len() == 0 || forall|i: int|
            0 <= i < split(strip_then_prepend(cur, crumbs, prepend, sep, windows), sep).len()
                ==> (#[trigger] split(strip_then_prepend(cur, crumbs, prepend, sep, windows), sep)[i]).len()
                > 0,
{
    let segs = prepend_segs(prepend, sep) + kept_segs(split(cur, sep), crumbs, windows);
    lemma_new_path_segments(cur, crumbs, prepend, sep, windows);
    lemma_joined_segments(segs, sep);
}

/// The segments an activation of `plan` adds on `os`: its breadcrumb entries,
/// split at the separator, empty pieces dropped.
pub open spec fn plan_segs(plan: EnvPlan, os: Os) -> Seq<Seq<char>> {
    prepend_segs(new_breadcrumb(plan, os), sep_char(os))
}

/// The breadcrumb an activation records reads back, through the separator,
/// as the plan's segments.
proof fn lemma_breadcrumb_reads_back(plan: EnvPlan, os: Os)
    ensures
        nonempty_segs(split(join(new_breadcrumb(plan, os), seq![sep_char(os)]), sep_char(os)))
            == plan_segs(plan, os),
{
    let sep = sep_char(os);
    let xs = new_breadcrumb(plan, os);
    if xs.len() > 0 {
        lemma_split_join_all(xs, sep);
    } else {
        assert(split(Seq::<char>::empty(), sep) == seq![Seq::<char>::empty()]);
        let one = seq![Seq::<char>::empty()];
        assert(one.drop_last() =~= Seq::<Seq<char>>::empty());
        assert(one.last().len() == 0);
        assert(nonempty_segs(one.drop_last()) =~= Seq::<Seq<char>>::empty());
        assert(nonempty_segs(one) =~= Seq::<Seq<char>>::empty());
        assert(split_all(xs, sep) =~= Seq::<Seq<char>>::empty());
        assert(nonempty_segs(split_all(xs, sep)) =~= Seq::<Seq<char>>::empty());
    }
}

/// The pieces of an activation's breadcrumb: those of the `bin` entries,
/// then, off Windows, those of the `lib64` entries.
proof fn lemma_breadcrumb_pieces(plan: EnvPlan, os: Os)
    ensures
        ({
            let sep = sep_char(os);
            let pp = norm_all(strings_view(plan.prepend_path@), os);
            let pl = norm_all(strings_view(plan.prepend_lib@), os);
            let ys = split_all(new_breadcrumb(plan, os), sep);
            &&& split_all(pp, sep).len() <= ys.len()
            &&& forall|m: int|
                0 <= m < split_all(pp, sep).len() ==> #[trigger] split_all(pp, sep)[m] == ys[m]
            &&& os == Os::Linux ==> split_all(pp, sep).len() + split_all(pl, sep).len() <= ys.len()
            &&& os == Os::Linux ==> forall|m: int|
                0 <= m < split_all(pl, sep).len() ==> #[trigger] split_all(pl, sep)[m] == ys[split_all(
                    pp,
                    sep,
                ).len() + m]
        }),
{
    let sep = sep_char(os);
    let pp = norm_all(strings_view(plan.prepend_path@), os);
    let pl = norm_all(strings_view(plan.prepend_lib@), os);
    if os == Os::Linux {
        lemma_split_all_concat(pp, pl, sep);
    }
}

/// Every non-empty segment of `a` is in the breadcrumb `nonempty_segs(xs)`
/// when it is one of `xs`.
proof fn lemma_in_own_breadcrumb(a: Seq<Seq<char>>, xs: Seq<Seq<char>>, windows: bool)
    requires
        forall|j: int| #![trigger a[j]] 0 <= j < a.len() ==> exists|k: int| 0 <= k < xs.len() && #[trigger] xs[k] == a[j],
    ensures
        forall|j: int|
            0 <= j < a.len() ==> (#[trigger] a[j]).len() == 0 || in_breadcrumb(
                a[j],
                nonempty_segs(xs),
                windows,
            ),
{
    lemma_nonempty_segs(xs);
    assert forall|j: int| 0 <= j < a.len() implies (#[trigger] a[j]).len() == 0 || in_breadcrumb(
        a[j],
        nonempty_segs(xs),
        windows,
    ) by {
        if a[j].len() > 0 {
            let k = choose|k: int| 0 <= k < xs.len() && #[trigger] xs[k] == a[j];
            assert(xs[k].len() > 0);
            let i = choose|i: int| 0 <= i < nonempty_segs(xs).len() && nonempty_segs(xs)[i] == xs[k];
            assert(matches_crumb(a[j], nonempty_segs(xs)[i], windows));
        }
    }
}

/// Stripping, with the breadcrumb of `xs`, a search path that prepended
/// pieces of `xs`, leaves what the first stripping kept, stripped again.
proof fn lemma_restrip(
    cur: Seq<char>,
    crumbs0: Seq<Seq<char>>,
    pp: Seq<Seq<char>>,
    xs: Seq<Seq<char>>,
    off: int,
    sep: char,
    w: bool,
)
    requires
        0 <= off,
        off + split_all(pp, sep).len() <= split_all(xs, sep).len(),
        forall|m: int|
            0 <= m < split_all(pp, sep).len() ==> #[trigger] split_all(pp, sep)[m] == split_all(
                xs,
                sep,
            )[off + m],
    ensures
        kept_segs(split(strip_then_prepend(cur, crumbs0, pp, sep, w), sep), prepend_segs(xs, sep), w)
            == kept_segs(kept_segs(split(cur, sep), crumbs0, w), prepend_segs(xs, sep), w),
{
    let pieces = split_all(pp, sep);
    let ys = split_all(xs, sep);
    let a = prepend_segs(pp, sep);
    let k0 = kept_segs(split(cur, sep), crumbs0, w);
    let crumbs1 = prepend_segs(xs, sep);
    lemma_new_path_segments(cur, crumbs0, pp, sep, w);
    lemma_joined_segments(a + k0, sep);
    if (a + k0).len() > 0 {
        lemma_kept_concat(a, k0, crumbs1, w);
        lemma_nonempty_segs(pieces);
        assert forall|j: int| #![trigger a[j]] 0 <= j < a.len() implies exists|k: int|
            0 <= k < ys.len() && #[trigger] ys[k] == a[j] by {
            let m = choose|m: int| 0 <= m < pieces.len() && pieces[m] == a[j];
            assert(ys[off + m] == pieces[m]);
        }
        lemma_in_own_breadcrumb(a, ys, w);
        lemma_kept_none(a, crumbs1, w);
        assert(kept_segs(a, crumbs1, w) + kept_segs(k0, crumbs1, w) =~= kept_segs(k0, crumbs1, w));
    } else {
        assert(a + k0 =~= Seq::<Seq<char>>::empty());
        assert(k0 =~= Seq::<Seq<char>>::empty());
        let e = split(Seq::<char>::empty(), sep);
        assert(e == seq![Seq::<char>::empty()]);
        assert(e.drop_last() =~= Seq::<Seq<char>>::empty());
        assert(e.last().len() == 0);
        assert(kept_segs(e.drop_last(), crumbs1, w) =~= Seq::<Seq<char>>::empty());
        assert(kept_segs(e, crumbs1, w) =~= Seq::<Seq<char>>::empty());
        assert(kept_segs(k0, crumbs1, w) =~= Seq::<Seq<char>>::empty());
    }
}

/// The search path of a second activation over the environment a first one
/// produced: the segments the first one added (its breadcrumb) are stripped,
/// so none is prepended twice. What remains is the new plan's segments, then
/// the segments of the value before the first activation that survive both
/// breadcrumbs, in order.
pub proof fn lemma_reactivation_strips_prior_segments(
    first: EnvPlan,
    second: EnvPlan,
    os: Os,
    injected: Seq<char>,
    path: Seq<char>,
    lib: Seq<char>,
)
    ensures
        ({
            let sep = sep_char(os);
            let w = os == Os::Windows;
            let e1 = activation_env(first, os, injected, path, lib);
            let e2 = activation_env(second, os, e1.last().1, e1[3].1, lib);
            e2[3].1 == join(
                prepend_segs(norm_all(strings_view(second.prepend_path@), os), sep) + kept_segs(
                    kept_segs(split(path, sep), nonempty_segs(split(injected, sep)), w),
                    plan_segs(first, os),
                    w,
                ),
                seq![sep],
            )
        }),
{
    let sep = sep_char(os);
    let w = os == Os::Windows;
    let pp = norm_all(strings_view(first.prepend_path@), os);
    let crumbs0 = nonempty_segs(split(injected, sep));
    let xs = new_breadcrumb(first, os);
    let e1 = activation_env(first, os, injected, path, lib);
    assert(e1[3].1 == strip_then_prepend(path, crumbs0, pp, sep, w));
    assert(e1.last().1 == join(xs, seq![sep]));
    lemma_breadcrumb_reads_back(first, os);
    lemma_breadcrumb_pieces(first, os);
    assert forall|m: int| 0 <= m < split_all(pp, sep).len() implies #[trigger] split_all(pp, sep)[m]
        == split_all(xs, sep)[0 + m] by {}
    lemma_restrip(path, crumbs0, pp, xs, 0, sep, w);
}

/// No segment that activating `plan` keeps from the current value `cur` is
/// one of the plan's own segments.
pub open spec fn keeps_none_of_plan(
    plan: EnvPlan,
    os: Os,
    injected: Seq<char>,
    cur: Seq<char>,
    windows: bool,
) -> bool {
    let k0 = kept_segs(split(cur, sep_char(os)), nonempty_segs(split(injected, sep_char(os))), windows);
    forall|j: int| 0 <= j < k0.len() ==> !in_breadcrumb(#[trigger] k0[j], plan_segs(plan, os), windows)
}

/// Re-activating a plan over the environment it produced changes nothing,
/// when the first activation kept no segment of the plan's own: every
/// assignment comes out the same, and no segment is prepended twice.
#[verifier::rlimit(30)]
pub proof fn lemma_reactivation_idempotent(
    plan: EnvPlan,
    os: Os,
    injected: Seq<char>,
    path: Seq<char>,
    lib: Seq<char>,
)
    requires
        keeps_none_of_plan(plan, os, injected, path, os == Os::Windows),
        os == Os::Linux ==> keeps_none_of_plan(plan, os, injected, lib, false),
    ensures
        ({
            let e1 = activation_env(plan, os, injected, path, lib);
            let lib1 = if os == Os::Windows {
                lib
            } else {
                e1[4].1
            };
            activation_env(plan, os, e1.last().1, e1[3].1, lib1) == e1
        }),
{
    let sep = sep_char(os);
    let w = os == Os::Windows;
    let crumbs0 = nonempty_segs(split(injected, sep));
    let xs = new_breadcrumb(plan, os);
    let crumbs1 = plan_segs(plan, os);
    let pp = norm_all(strings_view(plan.prepend_path@), os);
    let pl = norm_all(strings_view(plan.prepend_lib@), os);
    let e1 = activation_env(plan, os, injected, path, lib);
    let lib1 = if os == Os::Windows {
        lib
    } else {
        e1[4].1
    };
    let e2 = activation_env(plan, os, e1.last().1, e1[3].1, lib1);
    lemma_breadcrumb_reads_back(plan, os);
    lemma_breadcrumb_pieces(plan, os);
    assert(e1.last().1 == join(xs, seq![sep]));
    assert(e2.last().1 == join(xs, seq![sep]));
    assert(nonempty_segs(split(e1.last().1, sep)) == crumbs1);
    let k0 = kept_segs(split(path, sep), crumbs0, w);
    assert forall|m: int| 0 <= m < split_all(pp, sep).len() implies #[trigger] split_all(pp, sep)[m]
        == split_all(xs, sep)[0 + m] by {}
    lemma_restrip(path, crumbs0, pp, xs, 0, sep, w);
    lemma_kept_segs(split(path, sep), crumbs0, w);
    lemma_kept_all(k0, crumbs1, w);
    assert(e1[3].1 == strip_then_prepend(path, crumbs0, pp, sep, w));
    assert(e2[3].1 == strip_then_prepend(e1[3].1, crumbs1, pp, sep, w));
    if os == Os::Linux {
        let l0 = kept_segs(split(lib, sep), crumbs0, false);
        let off = split_all(pp, sep).len() as int;
        assert forall|m: int| 0 <= m < split_all(pl, sep).len() implies #[trigger] split_all(
            pl,
            sep,
        )[m] == split_all(xs, sep)[off + m] by {}
        lemma_restrip(lib, crumbs0, pl, xs, off, sep, false);
        lemma_kept_segs(split(lib, sep), crumbs0, false);
        lemma_kept_all(l0, crumbs1, false);
        assert(e1[4].1 == strip_then_prepend(lib, crumbs0, pl, sep, false));
        assert(e2[4].1 == strip_then_prepend(e1[4].1, crumbs1, pl, sep, false));
    }
    assert(e2 =~= e1);
}

/// Every non-empty segment outside the breadcrumb is kept.
proof fn lemma_kept_covers(parts: Seq<Seq<char>>, crumbs: Seq<Seq<char>>, windows: bool, j: int)
    requires
        0 <= j < parts.len(),
        parts[j].len() > 0,
        !in_breadcrumb(parts[j], crumbs, windows),
    ensures
        kept_segs(parts, crumbs, windows).contains(parts[j]),
    decreases parts.len(),
{
    let init = parts.drop_last();
    let r = kept_segs(parts, crumbs, windows);
    if j < init.len() {
        assert(init[j] == parts[j]);
        lemma_kept_covers(init, crumbs, windows, j);
        let ri = kept_segs(init, crumbs, windows);
        let i = choose|i: int| 0 <= i < ri.len() && ri[i] == parts[j];
        assert(r[i] == ri[i]);
    } else {
        assert(r[r.len() - 1] == parts[j]);
    }
}

/// Segments outside the breadcrumb survive: every non-empty segment of the
/// current search path that the breadcrumb does not hold is a segment of the
/// new one (a driver directory such as WSL's library path is never lost).
pub proof fn lemma_outside_segments_survive(
    cur: Seq<char>,
    crumbs: Seq<Seq<char>>,
    prepend: Seq<Seq<char>>,
    sep: char,
    windows: bool,
    seg: Seq<char>,
)
    requires
        split(cur, sep).contains(seg),
        seg.len() > 0,
        !in_breadcrumb(seg, crumbs, windows),
    ensures
        split(strip_then_prepend(cur, crumbs, prepend, sep, windows), sep).contains(seg),
{
    let parts = split(cur, sep);
    let j = choose|j: int| 0 <= j < parts.len() && parts[j] == seg;
    lemma_kept_covers(parts, crumbs, windows, j);
    let a = prepend_segs(prepend, sep);
    let b = kept_segs(parts, crumbs, windows);
    lemma_new_path_segments(cur, crumbs, prepend, sep, windows);
    lemma_joined_segments(a + b, sep);
    let i = choose|i: int| 0 <= i < b.len() && b[i] == seg;
    assert((a + b)[a.len() + i] == seg);
}

} // verus!
