//! Dotted numeric versions, compared field by field with a missing tail
//! reading as zero. `raw` keeps the text the version was parsed from.
use vstd::prelude::*;
use vstd::string::*;
use vstd::std_specs::cmp::PartialEqSpecImpl;
use vstd::std_specs::cmp::PartialOrdSpecImpl;
use core::cmp::Ordering;

use crate::error::CoreError;
use crate::text::{
    all_digits, decimal, digits_value, is_digit, lemma_digits_value_prefix, lemma_trim_idempotent, parse_u32,
    parts_view, push_char, split, split_chars, str_chars, string_from_chars, trim, trim_chars,
    u32_decimal,
};

verus! {

/// A dotted version compared **field-by-field numerically**, missing tail = 0.
/// `raw` preserves the original string for round-trip display.
#[derive(Debug)]
pub struct Version {
    pub fields: Vec<u32>,
    pub raw: String,
}

/// Field `i` of a version, reading as zero past its end.
pub open spec fn field_at(f: Seq<u32>, i: int) -> int {
    if 0 <= i < f.len() {
        f[i] as int
    } else {
        0
    }
}

pub open spec fn longer(a: Seq<u32>, b: Seq<u32>) -> int {
    if a.len() > b.len() {
        a.len() as int
    } else {
        b.len() as int
    }
}

/// The numeric order of `a` and `b` from field `i` on: -1, 0 or 1.
pub open spec fn order_from(a: Seq<u32>, b: Seq<u32>, i: int) -> int
    decreases longer(a, b) - i,
{
    if i < 0 || i >= longer(a, b) {
        0
    } else if field_at(a, i) < field_at(b, i) {
        -1
    } else if field_at(a, i) > field_at(b, i) {
        1
    } else {
        order_from(a, b, i + 1)
    }
}

/// The numeric order of two field lists: -1 (less), 0 (equal) or 1 (greater).
pub open spec fn version_order(a: Seq<u32>, b: Seq<u32>) -> int {
    order_from(a, b, 0)
}

/// Parses the dot-separated fields, each as `u32::from_str` would.
pub open spec fn parse_parts(parts: Seq<Seq<char>>) -> Option<Seq<u32>>
    decreases parts.len(),
{
    if parts.len() == 0 {
        Some(Seq::<u32>::empty())
    } else {
        match (parse_parts(parts.drop_last()), parse_u32(parts.last())) {
            (Some(f), Some(n)) => Some(f.push(n)),
            _ => None,
        }
    }
}

/// The fields `Version::parse` reads from `s`, or `None` when it rejects `s`:
/// the trimmed text must be non-empty and every dot-separated field a
/// non-negative 32-bit integer.
pub open spec fn version_fields(s: Seq<char>) -> Option<Seq<u32>> {
    let t = trim(s);
    if t.len() == 0 {
        None
    } else {
        parse_parts(split(t, '.'))
    }
}

/// `u32::from_str` over characters.
pub fn parse_u32_chars(p: &Vec<char>) -> (r: Option<u32>)
    ensures
        r == parse_u32(p@),
{
    let start: usize = if p.len() > 0 && p[0] == '+' {
        1
    } else {
        0
    };
    let ghost d = if p@.len() > 0 && p@[0] == '+' {
        p@.drop_first()
    } else {
        p@
    };
    assert(d =~= p@.subrange(start as int, p@.len() as int));
    if start >= p.len() {
        return None;
    }
    let mut acc: u64 = 0;
    let mut i: usize = start;
    while i < p.len()
        invariant
            start <= i <= p@.len(),
            start < p@.len(),
            start == (if p@.len() > 0 && p@[0] == '+' {
                1int
            } else {
                0int
            }),
            d == (if p@.len() > 0 && p@[0] == '+' {
                p@.drop_first()
            } else {
                p@
            }),
            d == p@.subrange(start as int, p@.len() as int),
            all_digits(p@.subrange(start as int, i as int)),
            acc as int == digits_value(p@.subrange(start as int, i as int)),
            acc <= u32::MAX,
        decreases p.len() - i,
    {
        let c = p[i];
        if !('0' <= c && c <= '9') {
            assert(!is_digit(d[i - start]));
            return None;
        }
        let dv = (c as u32 - '0' as u32) as u64;
        let ghost prev = p@.subrange(start as int, i as int);
        let ghost next = p@.subrange(start as int, i + 1);
        assert(next.drop_last() =~= prev);
        assert(all_digits(next)) by {
            assert forall|k: int| 0 <= k < next.len() implies #[trigger] is_digit(next[k]) by {
                if k < prev.len() {
                    assert(next[k] == prev[k]);
                }
            }
        }
        acc = acc * 10 + dv;
        if acc > 0xffff_ffff {
            proof {
                if all_digits(d) {
                    lemma_digits_value_prefix(d, i + 1 - start);
                    assert(d.subrange(0, i + 1 - start) =~= next);
                }
            }
            return None;
        }
        i = i + 1;
    }
    Some(acc as u32)
}

impl Version {
    /// Parse a dotted numeric version string (e.g. `"13.3.0"`).
    ///
    /// The text is trimmed first; it is rejected with
    /// [`CoreError::InvalidVersion`] (carrying the trimmed text) when it is
    /// empty or any dot-separated field is not a non-negative integer.
    pub fn parse(s: &str) -> (r: Result<Version, CoreError>)
        ensures
            match r {
                Ok(v) => version_fields(s@) == Some(v.fields@) && v.raw@ == trim(s@),
                Err(CoreError::InvalidVersion { raw }) => version_fields(s@) is None && raw@
                    == trim(s@),
                Err(_) => false,
            },
    {
        let v = str_chars(s);
        let t = trim_chars(&v);
        let raw = string_from_chars(&t);
        if t.len() == 0 {
            return Err(CoreError::InvalidVersion { raw });
        }
        let parts = split_chars(&t, '.');
        let ghost all = parts_view(parts@);
        // Parse every field.
        let mut fields: Vec<u32> = Vec::new();
        let mut k: usize = 0;
        assert(all.take(0) =~= Seq::<Seq<char>>::empty());
        while k < parts.len()
            invariant
                k <= parts@.len(),
                all == parts_view(parts@),
                all == split(t@, '.'),
                t@ == trim(s@),
                t@.len() > 0,
                raw@ == t@,
                parse_parts(all.take(k as int)) == Some(fields@),
            decreases parts.len() - k,
        {
            let f = parse_u32_chars(&parts[k]);
            assert(all.take(k + 1).drop_last() =~= all.take(k as int));
            assert(all.take(k + 1).last() == parts@[k as int]@);
            match f {
                Some(x) => {
                    fields.push(x);
                },
                None => {
                    proof {
                        lemma_parse_parts_fails(all, k as int + 1);
                    }
                    return Err(CoreError::InvalidVersion { raw });
                },
            }
            k = k + 1;
        }
        assert(all.take(parts@.len() as int) =~= all);
        Ok(Version { fields, raw })
    }

    /// The first (major) field, or `0` if the version has no fields.
    pub fn major(&self) -> (r: u32)
        ensures
            r == field_at(self.fields@, 0),
    {
        if self.fields.len() > 0 {
            self.fields[0]
        } else {
            0
        }
    }

    /// The `major.minor` line of this version (a missing minor reads as 0),
    /// rendered as `"<major>.<minor>"`.
    pub fn major_minor(&self) -> (r: Version)
        ensures
            r.fields@ == seq![
                field_at(self.fields@, 0) as u32,
                field_at(self.fields@, 1) as u32,
            ],
            r.raw@ == decimal(field_at(self.fields@, 0) as nat) + seq!['.'] + decimal(
                field_at(self.fields@, 1) as nat,
            ),
    {
        let major = self.major();
        let minor = if self.fields.len() > 1 {
            self.fields[1]
        } else {
            0
        };
        let mut raw = u32_decimal(major);
        push_char(&mut raw, '.');
        let tail = u32_decimal(minor);
        raw.append(tail.as_str());
        let mut fields: Vec<u32> = Vec::new();
        fields.push(major);
        fields.push(minor);
        assert(fields@ =~= seq![major, minor]);
        Version { fields, raw }
    }

    /// The numeric order of `self` against `other`: -1, 0 or 1.
    pub fn compare_to(&self, other: &Version) -> (r: i8)
        ensures
            r as int == version_order(self.fields@, other.fields@),
    {
        let a = &self.fields;
        let b = &other.fields;
        let n = if a.len() > b.len() {
            a.len()
        } else {
            b.len()
        };
        let mut i: usize = 0;
        while i < n
            invariant
                a@ == self.fields@,
                b@ == other.fields@,
                n as int == longer(a@, b@),
                i <= n,
                version_order(a@, b@) == order_from(a@, b@, i as int),
            decreases n - i,
        {
            let x = if i < a.len() {
                a[i]
            } else {
                0
            };
            let y = if i < b.len() {
                b[i]
            } else {
                0
            };
            assert(x as int == field_at(a@, i as int));
            assert(y as int == field_at(b@, i as int));
            if x < y {
                return -1;
            }
            if x > y {
                return 1;
            }
            i = i + 1;
        }
        0
    }

    /// The text this version was parsed from (what `Display` renders).
    pub fn to_string(&self) -> (r: String)
        ensures
            r@ == self.raw@,
    {
        self.raw.clone()
    }

    /// A field-for-field copy.
    pub fn copy(&self) -> (r: Version)
        ensures
            r.fields@ == self.fields@,
            r.raw@ == self.raw@,
    {
        let mut fields: Vec<u32> = Vec::new();
        let mut i: usize = 0;
        while i < self.fields.len()
            invariant
                i <= self.fields@.len(),
                fields@ == self.fields@.subrange(0, i as int),
            decreases self.fields.len() - i,
        {
            fields.push(self.fields[i]);
            i = i + 1;
            assert(fields@ =~= self.fields@.subrange(0, i as int));
        }
        assert(fields@ =~= self.fields@);
        Version { fields, raw: self.raw.clone() }
    }
}

impl Clone for Version {
    fn clone(&self) -> (r: Self)
        ensures
            r.fields@ == self.fields@,
            r.raw@ == self.raw@,
    {
        self.copy()
    }
}

/// `f` begins with the fields `p` (compared as written, not zero-padded).
pub open spec fn has_prefix(f: Seq<u32>, p: Seq<u32>) -> bool {
    p.len() <= f.len() && f.subrange(0, p.len() as int) == p
}

/// Whether `f` begins with the fields `p`.
pub fn has_prefix_exec(f: &Vec<u32>, p: &Vec<u32>) -> (r: bool)
    ensures
        r == has_prefix(f@, p@),
{
    if p.len() > f.len() {
        return false;
    }
    let mut i: usize = 0;
    while i < p.len()
        invariant
            p@.len() <= f@.len(),
            i <= p@.len(),
            forall|j: int| 0 <= j < i ==> f@[j] == p@[j],
        decreases p.len() - i,
    {
        if f[i] != p[i] {
            assert(f@.subrange(0, p@.len() as int)[i as int] != p@[i as int]);
            return false;
        }
        i = i + 1;
    }
    assert(f@.subrange(0, p@.len() as int) =~= p@);
    true
}

/// `a` and `b` agree on every field in `[i, k)`.
pub open spec fn agree_between(a: Seq<u32>, b: Seq<u32>, i: int, k: int) -> bool {
    forall|j: int| i <= j < k ==> #[trigger] field_at(a, j) == field_at(b, j)
}

/// Field `k` is where `a` and `b` first differ from field `i` on, and `a` is
/// the smaller there.
pub open spec fn first_below(a: Seq<u32>, b: Seq<u32>, i: int, k: int) -> bool {
    i <= k && field_at(a, k) < field_at(b, k) && agree_between(a, b, i, k)
}

/// Two first differences cannot point opposite ways.
proof fn lemma_first_below_exclusive(a: Seq<u32>, b: Seq<u32>, i: int, k1: int, k2: int)
    ensures
        !(first_below(a, b, i, k1) && first_below(b, a, i, k2)),
{
    if !(first_below(a, b, i, k1) && first_below(b, a, i, k2)) {
    } else if k1 < k2 {
        assert(field_at(b, k1) == field_at(a, k1));
    } else if k2 < k1 {
        assert(field_at(a, k2) == field_at(b, k2));
    }
}

/// What `order_from` means: 0 when the fields agree from `i` on, -1 when the
/// first difference has `a` smaller, 1 when it has `a` larger.
pub proof fn lemma_order_from_meaning(a: Seq<u32>, b: Seq<u32>, i: int)
    requires
        0 <= i,
    ensures
        -1 <= order_from(a, b, i) <= 1,
        order_from(a, b, i) == 0 <==> (forall|k: int| i <= k ==> #[trigger] field_at(a, k) == field_at(b, k)),
        order_from(a, b, i) == -1 <==> (exists|k: int| #[trigger] first_below(a, b, i, k)),
        order_from(a, b, i) == 1 <==> (exists|k: int| #[trigger] first_below(b, a, i, k)),
    decreases longer(a, b) - i,
{
    if i >= longer(a, b) {
        assert forall|k: int| i <= k implies #[trigger] field_at(a, k) == field_at(b, k) by {}
        if exists|k: int| #[trigger] first_below(a, b, i, k) {
            let k = choose|k: int| #[trigger] first_below(a, b, i, k);
            assert(field_at(a, k) == field_at(b, k));
        }
        if exists|k: int| #[trigger] first_below(b, a, i, k) {
            let k = choose|k: int| #[trigger] first_below(b, a, i, k);
            assert(field_at(a, k) == field_at(b, k));
        }
    } else if field_at(a, i) < field_at(b, i) {
        assert(first_below(a, b, i, i));
        if exists|k: int| #[trigger] first_below(b, a, i, k) {
            let k = choose|k: int| #[trigger] first_below(b, a, i, k);
            lemma_first_below_exclusive(a, b, i, i, k);
        }
    } else if field_at(a, i) > field_at(b, i) {
        assert(first_below(b, a, i, i));
        if exists|k: int| #[trigger] first_below(a, b, i, k) {
            let k = choose|k: int| #[trigger] first_below(a, b, i, k);
            lemma_first_below_exclusive(a, b, i, k, i);
        }
    } else {
        lemma_order_from_meaning(a, b, i + 1);
        if order_from(a, b, i + 1) == 0 {
            assert forall|k: int| i <= k implies #[trigger] field_at(a, k) == field_at(b, k) by {
                if k > i {
                    assert(field_at(a, k) == field_at(b, k));
                }
            }
        }
        if exists|k: int| #[trigger] first_below(a, b, i + 1, k) {
            let k = choose|k: int| #[trigger] first_below(a, b, i + 1, k);
            assert(first_below(a, b, i, k));
        }
        if exists|k: int| #[trigger] first_below(b, a, i + 1, k) {
            let k = choose|k: int| #[trigger] first_below(b, a, i + 1, k);
            assert(first_below(b, a, i, k));
        }
        if exists|k: int| #[trigger] first_below(a, b, i, k) {
            let k = choose|k: int| #[trigger] first_below(a, b, i, k);
            assert(k != i);
            assert(first_below(a, b, i + 1, k));
        }
        if exists|k: int| #[trigger] first_below(b, a, i, k) {
            let k = choose|k: int| #[trigger] first_below(b, a, i, k);
            assert(k != i);
            assert(first_below(b, a, i + 1, k));
        }
        if forall|k: int| i <= k ==> #[trigger] field_at(a, k) == field_at(b, k) {
            assert(forall|k: int| i + 1 <= k ==> #[trigger] field_at(a, k) == field_at(b, k));
        }
    }
}

/// Re-parsing the text a parsed version keeps (`raw`, the trimmed input)
/// reads the same fields: parsing `s` and parsing `trim(s)` agree.
pub proof fn lemma_parse_raw_round_trip(s: Seq<char>)
    ensures
        version_fields(trim(s)) == version_fields(s),
{
    lemma_trim_idempotent(s);
}

/// Two versions are equal exactly when they agree field by field, a missing
/// field reading as zero (so `12.4` equals `12.4.0`).
pub proof fn lemma_version_eq_iff_padded_fields(a: Seq<u32>, b: Seq<u32>)
    ensures
        version_order(a, b) == 0 <==> (forall|k: int| 0 <= k ==> #[trigger] field_at(a, k) == field_at(b, k)),
{
    lemma_order_from_meaning(a, b, 0);
}

/// Every version equals itself.
pub proof fn lemma_version_order_reflexive(a: Seq<u32>)
    ensures
        version_order(a, a) == 0,
{
    lemma_order_from_meaning(a, a, 0);
}

/// Swapping the operands flips the order.
pub proof fn lemma_version_order_antisymmetric(a: Seq<u32>, b: Seq<u32>)
    ensures
        version_order(a, b) == -version_order(b, a),
{
    lemma_order_from_meaning(a, b, 0);
    lemma_order_from_meaning(b, a, 0);
    if version_order(a, b) == 0 {
        assert forall|k: int| 0 <= k implies #[trigger] field_at(b, k) == field_at(a, k) by {
            assert(field_at(a, k) == field_at(b, k));
        }
    }
    if version_order(b, a) == 0 {
        assert forall|k: int| 0 <= k implies #[trigger] field_at(a, k) == field_at(b, k) by {
            assert(field_at(b, k) == field_at(a, k));
        }
    }
}

/// The order is transitive, and strictly so when either step is strict.
pub proof fn lemma_version_order_transitive(a: Seq<u32>, b: Seq<u32>, c: Seq<u32>)
    requires
        version_order(a, b) <= 0,
        version_order(b, c) <= 0,
    ensures
        version_order(a, c) <= 0,
        version_order(a, b) < 0 || version_order(b, c) < 0 ==> version_order(a, c) < 0,
{
    lemma_order_from_meaning(a, b, 0);
    lemma_order_from_meaning(b, c, 0);
    lemma_order_from_meaning(a, c, 0);
    if version_order(a, b) == 0 && version_order(b, c) == 0 {
        assert forall|k: int| 0 <= k implies #[trigger] field_at(a, k) == field_at(c, k) by {
            assert(field_at(a, k) == field_at(b, k));
            assert(field_at(b, k) == field_at(c, k));
        }
    } else {
        // Some step is strict: the first difference of `a` and `c` is the
        // earlier of the two steps' first differences.
        let k = if version_order(a, b) == 0 {
            let k2 = choose|k: int| #[trigger] first_below(b, c, 0, k);
            assert(field_at(a, k2) == field_at(b, k2));
            assert forall|j: int| 0 <= j < k2 implies #[trigger] field_at(a, j) == field_at(c, j) by {
                assert(field_at(a, j) == field_at(b, j));
                assert(field_at(b, j) == field_at(c, j));
            }
            k2
        } else if version_order(b, c) == 0 {
            let k1 = choose|k: int| #[trigger] first_below(a, b, 0, k);
            assert(field_at(b, k1) == field_at(c, k1));
            assert forall|j: int| 0 <= j < k1 implies #[trigger] field_at(a, j) == field_at(c, j) by {
                assert(field_at(a, j) == field_at(b, j));
                assert(field_at(b, j) == field_at(c, j));
            }
            k1
        } else {
            let k1 = choose|k: int| #[trigger] first_below(a, b, 0, k);
            let k2 = choose|k: int| #[trigger] first_below(b, c, 0, k);
            let k = if k1 < k2 {
                k1
            } else {
                k2
            };
            assert(field_at(a, k) <= field_at(b, k));
            assert(field_at(b, k) <= field_at(c, k));
            assert forall|j: int| 0 <= j < k implies #[trigger] field_at(a, j) == field_at(c, j) by {
                assert(field_at(a, j) == field_at(b, j));
                assert(field_at(b, j) == field_at(c, j));
            }
            k
        };
        assert(first_below(a, c, 0, k));
        if version_order(a, c) == 1 {
            let k3 = choose|k: int| #[trigger] first_below(c, a, 0, k);
            lemma_first_below_exclusive(a, c, 0, k, k3);
        }
    }
}

/// A field list parses no further once one of its leading fields fails.
pub proof fn lemma_parse_parts_fails(all: Seq<Seq<char>>, k: int)
    requires
        0 < k <= all.len(),
        parse_parts(all.take(k)) is None,
    ensures
        parse_parts(all) is None,
    decreases all.len() - k,
{
    if k < all.len() {
        assert(all.take(k + 1).drop_last() =~= all.take(k));
        lemma_parse_parts_fails(all, k + 1);
    } else {
        assert(all.take(k) =~= all);
    }
}

impl PartialEq for Version {
    fn eq(&self, other: &Self) -> (r: bool) {
        self.compare_to(other) == 0
    }
}

impl PartialEqSpecImpl for Version {
    open spec fn obeys_eq_spec() -> bool {
        true
    }

    open spec fn eq_spec(&self, other: &Version) -> bool {
        version_order(self.fields@, other.fields@) == 0
    }
}

impl Eq for Version {
}

/// The `Ordering` that `version_order` denotes.
pub open spec fn ordering_of(o: int) -> Ordering {
    if o < 0 {
        Ordering::Less
    } else if o == 0 {
        Ordering::Equal
    } else {
        Ordering::Greater
    }
}

impl PartialOrd for Version {
    fn partial_cmp(&self, other: &Self) -> (r: Option<Ordering>) {
        let c = self.compare_to(other);
        if c < 0 {
            Some(Ordering::Less)
        } else if c == 0 {
            Some(Ordering::Equal)
        } else {
            Some(Ordering::Greater)
        }
    }
}

impl PartialOrdSpecImpl for Version {
    open spec fn obeys_partial_cmp_spec() -> bool {
        true
    }

    open spec fn partial_cmp_spec(&self, other: &Version) -> Option<Ordering> {
        Some(ordering_of(version_order(self.fields@, other.fields@)))
    }
}

} // verus!
