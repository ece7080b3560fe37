//! The listing of cuDNN and NCCL payloads: each paired payload with the
//! toolkit it is linked into, then the stored payloads nothing references.
use vstd::prelude::*;
use vstd::string::*;
use vstd::utf8::{encode_scalar, encode_utf8};

use crate::text::{decimal, str_chars, str_eq, string_from_chars, string_of, strings_view, u32_decimal};

verus! {

/// The length in bytes of a text (`str::len`).
pub open spec fn utf8_len(s: Seq<char>) -> nat {
    encode_utf8(s).len()
}

/// The short form of a content id: its first 12 bytes when they end on a
/// character boundary, else the whole id (`str::get(..12)`, or the id).
pub open spec fn short_id(s: Seq<char>) -> Seq<char> {
    if exists|k: int| 0 <= k <= s.len() && #[trigger] utf8_len(s.take(k)) == 12 {
        s.take(choose|k: int| 0 <= k <= s.len() && #[trigger] utf8_len(s.take(k)) == 12)
    } else {
        s
    }
}

/// Encoding a concatenation encodes each part.
proof fn lemma_encode_concat(a: Seq<char>, b: Seq<char>)
    ensures
        encode_utf8(a + b) == encode_utf8(a) + encode_utf8(b),
    decreases a.len(),
{
    if a.len() > 0 {
        lemma_encode_concat(a.drop_first(), b);
        assert((a + b).drop_first() =~= a.drop_first() + b);
        assert((a + b)[0] == a[0]);
        assert(encode_scalar(a[0] as u32) + (encode_utf8(a.drop_first()) + encode_utf8(b))
            =~= (encode_scalar(a[0] as u32) + encode_utf8(a.drop_first())) + encode_utf8(b));
    } else {
        assert(a + b =~= b);
        assert(encode_utf8(a) =~= Seq::<u8>::empty());
        assert(encode_utf8(a) + encode_utf8(b) =~= encode_utf8(b));
    }
}

/// The byte length of one more character.
proof fn lemma_utf8_len_step(s: Seq<char>, k: int)
    requires
        0 <= k < s.len(),
    ensures
        utf8_len(s.take(k + 1)) == utf8_len(s.take(k)) + encode_scalar(s[k] as u32).len(),
        encode_scalar(s[k] as u32).len() >= 1,
{
    lemma_encode_concat(s.take(k), seq![s[k]]);
    assert(s.take(k + 1) =~= s.take(k) + seq![s[k]]);
    let one = seq![s[k]];
    assert(one.drop_first() =~= Seq::<char>::empty());
    assert(one[0] == s[k]);
    assert(encode_utf8(Seq::<char>::empty()) =~= Seq::<u8>::empty());
    assert(encode_utf8(one) == encode_scalar(s[k] as u32) + encode_utf8(one.drop_first()));
    assert(encode_utf8(one) =~= encode_scalar(s[k] as u32));
}

/// Byte lengths of prefixes grow strictly with the prefix.
proof fn lemma_utf8_len_strict(s: Seq<char>, i: int, j: int)
    requires
        0 <= i < j <= s.len(),
    ensures
        utf8_len(s.take(i)) < utf8_len(s.take(j)),
    decreases j - i,
{
    lemma_utf8_len_step(s, j - 1);
    if i < j - 1 {
        lemma_utf8_len_strict(s, i, j - 1);
    }
}

/// The number of bytes `c` encodes to.
fn char_utf8_len(c: char) -> (r: usize)
    ensures
        r == encode_scalar(c as u32).len(),
        1 <= r <= 4,
{
    let n = c as u32;
    proof {
        vstd::utf8::char_is_scalar(c);
    }
    if n <= 0x7F {
        1
    } else if n <= 0x7FF {
        2
    } else if n <= 0xFFFF {
        3
    } else {
        4
    }
}

/// The short form of a content id.
pub fn short_id_exec(s: &str) -> (r: String)
    ensures
        r@ == short_id(s@),
{
    let v = str_chars(s);
    let mut k: usize = 0;
    let mut bytes: usize = 0;
    assert(encode_utf8(v@.take(0)) =~= Seq::<u8>::empty());
    while k < v.len() && bytes < 12
        invariant
            v@ == s@,
            k <= v@.len(),
            bytes == utf8_len(v@.take(k as int)),
            bytes < 12 + 4,
            forall|j: int| 0 <= j < k ==> #[trigger] utf8_len(v@.take(j)) < 12,
        decreases v.len() - k,
    {
        proof {
            lemma_utf8_len_step(v@, k as int);
        }
        bytes = bytes + char_utf8_len(v[k]);
        k = k + 1;
    }
    if bytes == 12 {
        proof {
            let w = choose|j: int| 0 <= j <= s@.len() && #[trigger] utf8_len(s@.take(j)) == 12;
            if w < k {
                lemma_utf8_len_strict(v@, w, k as int);
            } else if w > k {
                lemma_utf8_len_strict(v@, k as int, w);
            }
        }
        string_from_chars(&crate::text::sub_chars(&v, 0, k))
    } else {
        proof {
            assert forall|j: int| 0 <= j <= s@.len() implies #[trigger] utf8_len(s@.take(j)) != 12 by {
                if j > k {
                    lemma_utf8_len_strict(v@, k as int, j);
                }
            }
        }
        string_of(s)
    }
}

/// A payload linked into an installed toolkit: the toolkit's handle, and the
/// payload's version, CUDA major and content id.
pub struct PairedPayload {
    pub handle: String,
    pub version: String,
    pub cuda_major: u32,
    pub sha256: String,
}

/// The line of a paired payload.
pub open spec fn paired_line(p: PairedPayload) -> Seq<char> {
    p.version@ + " (cuda"@ + decimal(p.cuda_major as nat) + ")  "@ + short_id(p.sha256@) + "  ->  "@
        + p.handle@
}

/// Whether a paired payload has content id `name`.
pub open spec fn referenced(paired: Seq<PairedPayload>, name: Seq<char>) -> bool {
    exists|i: int| 0 <= i < paired.len() && #[trigger] paired[i].sha256@ == name
}

/// The lines of the stored payloads, in order, that are neither hidden
/// (a leading `.`) nor referenced.
pub open spec fn unreferenced_lines(paired: Seq<PairedPayload>, names: Seq<Seq<char>>) -> Seq<
    Seq<char>,
>
    decreases names.len(),
{
    if names.len() == 0 {
        Seq::empty()
    } else {
        let rest = unreferenced_lines(paired, names.drop_last());
        let n = names.last();
        if (n.len() > 0 && n[0] == '.') || referenced(paired, n) {
            rest
        } else {
            rest.push(short_id(n) + "  (unreferenced)"@)
        }
    }
}

/// The payload listing: a line per paired payload, then one per stored
/// payload that is neither hidden nor referenced; `none_line` alone when
/// there is neither.
pub open spec fn payload_listing(
    paired: Seq<PairedPayload>,
    names: Seq<Seq<char>>,
    none_line: Seq<char>,
) -> Seq<Seq<char>> {
    let a = Seq::new(paired.len(), |i: int| paired_line(paired[i]));
    let b = unreferenced_lines(paired, names);
    if a.len() + b.len() == 0 {
        seq![none_line]
    } else {
        a + b
    }
}

/// The lines `cudnn ls` / `nccl ls` print, from the payloads found paired
/// with installed toolkits and the content ids present in the store.
pub fn payload_lines(paired: &Vec<PairedPayload>, store_names: &Vec<String>, none_line: &str) -> (r:
    Vec<String>)
    ensures
        strings_view(r@) == payload_listing(paired@, strings_view(store_names@), none_line@),
{
    let mut out: Vec<String> = Vec::new();
    let mut i: usize = 0;
    while i < paired.len()
        invariant
            i <= paired@.len(),
            strings_view(out@) == Seq::new(i as nat, |j: int| paired_line(paired@[j])),
        decreases paired.len() - i,
    {
        let p = &paired[i];
        let mut line = p.version.clone();
        line.append(" (cuda");
        let major = u32_decimal(p.cuda_major);
        line.append(major.as_str());
        line.append(")  ");
        let id = short_id_exec(p.sha256.as_str());
        line.append(id.as_str());
        line.append("  ->  ");
        line.append(p.handle.as_str());
        assert(line@ == paired_line(paired@[i as int]));
        let ghost before = strings_view(out@);
        out.push(line);
        assert(strings_view(out@) =~= before.push(paired_line(paired@[i as int])));
        assert(strings_view(out@) =~= Seq::new((i + 1) as nat, |j: int| paired_line(paired@[j])));
        i = i + 1;
    }
    let ghost a = strings_view(out@);
    let ghost names = strings_view(store_names@);
    let mut k: usize = 0;
    while k < store_names.len()
        invariant
            k <= store_names@.len(),
            names == strings_view(store_names@),
            a == Seq::new(paired@.len(), |j: int| paired_line(paired@[j])),
            strings_view(out@) == a + unreferenced_lines(paired@, names.take(k as int)),
        decreases store_names.len() - k,
    {
        let name = store_names[k].as_str();
        let v = str_chars(name);
        let hidden = v.len() > 0 && v[0] == '.';
        let mut seen = false;
        let mut j: usize = 0;
        while j < paired.len()
            invariant
                j <= paired@.len(),
                seen == exists|q: int| 0 <= q < j && #[trigger] paired@[q].sha256@ == name@,
            decreases paired.len() - j,
        {
            if str_eq(paired[j].sha256.as_str(), name) {
                seen = true;
            }
            j = j + 1;
        }
        assert(names.take(k + 1).drop_last() =~= names.take(k as int));
        assert(names.take(k + 1).last() == name@);
        if !hidden && !seen {
            let mut line = short_id_exec(name);
            line.append("  (unreferenced)");
            let ghost before = strings_view(out@);
            out.push(line);
            assert(strings_view(out@) =~= before.push(line@));
        }
        k = k + 1;
    }
    assert(names.take(store_names@.len() as int) =~= names);
    if out.len() == 0 {
        out.push(string_of(none_line));
        assert(strings_view(out@) =~= seq![none_line@]);
    }
    out
}

/// What linking a payload into a toolkit reports: the change line
/// (`+ <kind> <version> (cuda<major>)  ->  <handle>`) and the summary of the
/// libraries linked into the toolkit's root.
pub fn linked_lines(
    kind: &str,
    version: &str,
    cuda_major: u32,
    handle: &str,
    libs: usize,
    root: &str,
) -> (r: (String, String))
    ensures
        r.0@ == "+ "@ + kind@ + " "@ + version@ + " (cuda"@ + decimal(cuda_major as nat) + ")  ->  "@
            + handle@,
        r.1@ == "Linked "@ + crate::text::decimal(libs as nat) + " libraries into "@ + root@,
{
    let mut change = string_of("+ ");
    change.append(kind);
    change.append(" ");
    change.append(version);
    change.append(" (cuda");
    let major = u32_decimal(cuda_major);
    change.append(major.as_str());
    change.append(")  ->  ");
    change.append(handle);
    let mut summary = string_of("Linked ");
    let n = crate::text::usize_decimal(libs);
    summary.append(n.as_str());
    summary.append(" libraries into ");
    summary.append(root);
    (change, summary)
}

} // verus!
