//! Embedded CUDA driver-minimum table and cuDNN ↔ CUDA matrix.
//!
//! Source of truth: CUDA Toolkit Release Notes "Table 3", with separate
//! Linux/Windows columns. All comparisons use `Version`'s numeric order —
//! never lexical string compares.
use vstd::prelude::*;
use vstd::string::*;

use crate::text::string_of;
use crate::version::{field_at, version_order, Version};

verus! {

/// The fields and text of a version.
pub open spec fn vv(v: Version) -> (Seq<u32>, Seq<char>) {
    (v.fields@, v.raw@)
}

/// One parsed row: a CUDA release and its per-OS minimum driver.
/// `windows_min == None` means Windows N/A (e.g. all of CUDA 13.x).
#[derive(Debug, Clone)]
pub struct DriverRow {
    pub cuda: Version,
    pub linux_min: Version,
    pub windows_min: Option<Version>,
}

pub open spec fn opt_vv(v: Option<Version>) -> Option<(Seq<u32>, Seq<char>)> {
    match v {
        Some(x) => Some(vv(x)),
        None => None,
    }
}

/// A row as (CUDA release, Linux minimum, Windows minimum).
pub open spec fn row_view(r: DriverRow) -> (
    (Seq<u32>, Seq<char>),
    (Seq<u32>, Seq<char>),
    Option<(Seq<u32>, Seq<char>)>,
) {
    (vv(r.cuda), vv(r.linux_min), opt_vv(r.windows_min))
}

pub open spec fn rows_view(rows: Seq<DriverRow>) -> Seq<
    ((Seq<u32>, Seq<char>), (Seq<u32>, Seq<char>), Option<(Seq<u32>, Seq<char>)>),
> {
    Seq::new(rows.len(), |i: int| row_view(rows[i]))
}

/// The full embedded driver-ceiling table.
#[derive(Debug, Clone)]
pub struct DriverCeilingTable {
    pub rows: Vec<DriverRow>,
}

/// The embedded table: 14 GA releases (CUDA 12.7 was never released), in
/// ascending order; every 13.x release is Windows N/A.
pub open spec fn embedded_driver_rows() -> Seq<
    ((Seq<u32>, Seq<char>), (Seq<u32>, Seq<char>), Option<(Seq<u32>, Seq<char>)>),
> {
    seq![
        ((seq![11u32, 8], "11.8"@), (seq![520u32, 61, 5], "520.61.05"@), Some((seq![520u32, 6], "520.06"@))),
        ((seq![12u32, 0], "12.0"@), (seq![525u32, 60, 13], "525.60.13"@), Some((seq![527u32, 41], "527.41"@))),
        ((seq![12u32, 1], "12.1"@), (seq![530u32, 30, 2], "530.30.02"@), Some((seq![531u32, 14], "531.14"@))),
        ((seq![12u32, 2], "12.2"@), (seq![535u32, 54, 3], "535.54.03"@), Some((seq![536u32, 25], "536.25"@))),
        ((seq![12u32, 3], "12.3"@), (seq![545u32, 23, 6], "545.23.06"@), Some((seq![545u32, 84], "545.84"@))),
        ((seq![12u32, 4], "12.4"@), (seq![550u32, 54, 14], "550.54.14"@), Some((seq![551u32, 61], "551.61"@))),
        ((seq![12u32, 5], "12.5"@), (seq![555u32, 42, 2], "555.42.02"@), Some((seq![555u32, 85], "555.85"@))),
        ((seq![12u32, 6], "12.6"@), (seq![560u32, 28, 3], "560.28.03"@), Some((seq![560u32, 76], "560.76"@))),
        ((seq![12u32, 8], "12.8"@), (seq![570u32, 26], "570.26"@), Some((seq![570u32, 65], "570.65"@))),
        ((seq![12u32, 9], "12.9"@), (seq![575u32, 51, 3], "575.51.03"@), Some((seq![576u32, 2], "576.02"@))),
        ((seq![13u32, 0], "13.0"@), (seq![580u32, 65, 6], "580.65.06"@), None),
        ((seq![13u32, 1], "13.1"@), (seq![590u32, 44, 1], "590.44.01"@), None),
        ((seq![13u32, 2], "13.2"@), (seq![595u32, 45, 4], "595.45.04"@), None),
        ((seq![13u32, 3], "13.3"@), (seq![600u32, 30, 2], "600.30.02"@), None),
    ]
}

/// A version with the given fields and text.
pub fn ver(fields: &[u32], raw: &str) -> (v: Version)
    ensures
        v.fields@ == fields@,
        v.raw@ == raw@,
{
    let mut f: Vec<u32> = Vec::new();
    let mut i: usize = 0;
    while i < fields.len()
        invariant
            i <= fields@.len(),
            f@ == fields@.subrange(0, i as int),
        decreases fields.len() - i,
    {
        f.push(fields[i]);
        i = i + 1;
        assert(f@ =~= fields@.subrange(0, i as int));
    }
    assert(f@ =~= fields@);
    Version { fields: f, raw: string_of(raw) }
}

fn row(cuda: Version, linux_min: Version, windows_min: Option<Version>) -> (r: DriverRow)
    ensures
        r.cuda == cuda,
        r.linux_min == linux_min,
        r.windows_min == windows_min,
{
    DriverRow { cuda, linux_min, windows_min }
}

impl DriverCeilingTable {
    /// The embedded table.
    pub fn load() -> (t: DriverCeilingTable)
        ensures
            rows_view(t.rows@) == embedded_driver_rows(),
    {
        let mut rows: Vec<DriverRow> = Vec::new();
        rows.push(row(ver(&[11, 8], "11.8"), ver(&[520, 61, 5], "520.61.05"), Some(ver(&[520, 6], "520.06"))));
        rows.push(row(ver(&[12, 0], "12.0"), ver(&[525, 60, 13], "525.60.13"), Some(ver(&[527, 41], "527.41"))));
        rows.push(row(ver(&[12, 1], "12.1"), ver(&[530, 30, 2], "530.30.02"), Some(ver(&[531, 14], "531.14"))));
        rows.push(row(ver(&[12, 2], "12.2"), ver(&[535, 54, 3], "535.54.03"), Some(ver(&[536, 25], "536.25"))));
        rows.push(row(ver(&[12, 3], "12.3"), ver(&[545, 23, 6], "545.23.06"), Some(ver(&[545, 84], "545.84"))));
        rows.push(row(ver(&[12, 4], "12.4"), ver(&[550, 54, 14], "550.54.14"), Some(ver(&[551, 61], "551.61"))));
        rows.push(row(ver(&[12, 5], "12.5"), ver(&[555, 42, 2], "555.42.02"), Some(ver(&[555, 85], "555.85"))));
        rows.push(row(ver(&[12, 6], "12.6"), ver(&[560, 28, 3], "560.28.03"), Some(ver(&[560, 76], "560.76"))));
        rows.push(row(ver(&[12, 8], "12.8"), ver(&[570, 26], "570.26"), Some(ver(&[570, 65], "570.65"))));
        rows.push(row(ver(&[12, 9], "12.9"), ver(&[575, 51, 3], "575.51.03"), Some(ver(&[576, 2], "576.02"))));
        rows.push(row(ver(&[13, 0], "13.0"), ver(&[580, 65, 6], "580.65.06"), None));
        rows.push(row(ver(&[13, 1], "13.1"), ver(&[590, 44, 1], "590.44.01"), None));
        rows.push(row(ver(&[13, 2], "13.2"), ver(&[595, 45, 4], "595.45.04"), None));
        rows.push(row(ver(&[13, 3], "13.3"), ver(&[600, 30, 2], "600.30.02"), None));
        let t = DriverCeilingTable { rows };
        assert(rows_view(t.rows@) =~= embedded_driver_rows());
        t
    }

    /// Find the first row for a CUDA release equal (numerically) to `cuda`.
    pub fn row_for(&self, cuda: &Version) -> (r: Option<&DriverRow>)
        ensures
            match r {
                Some(row) => exists|i: int|
                    0 <= i < self.rows@.len() && self.rows@[i] == *row && version_order(
                        self.rows@[i].cuda.fields@,
                        cuda.fields@,
                    ) == 0 && forall|j: int|
                        0 <= j < i ==> version_order(
                            #[trigger] self.rows@[j].cuda.fields@,
                            cuda.fields@,
                        ) != 0,
                None => forall|j: int|
                    0 <= j < self.rows@.len() ==> version_order(
                        #[trigger] self.rows@[j].cuda.fields@,
                        cuda.fields@,
                    ) != 0,
            },
    {
        let mut i: usize = 0;
        while i < self.rows.len()
            invariant
                i <= self.rows@.len(),
                forall|j: int|
                    0 <= j < i ==> version_order(
                        #[trigger] self.rows@[j].cuda.fields@,
                        cuda.fields@,
                    ) != 0,
            decreases self.rows.len() - i,
        {
            if self.rows[i].cuda.compare_to(cuda) == 0 {
                return Some(&self.rows[i]);
            }
            i = i + 1;
        }
        None
    }
}

/// One cuDNN line and the CUDA majors it supports.
#[derive(Debug, Clone)]
pub struct CudnnEntry {
    pub cudnn: Version,
    pub cuda_majors: Vec<u32>,
}

/// The full embedded cuDNN ↔ CUDA matrix.
#[derive(Debug, Clone)]
pub struct CudnnMatrix {
    pub entries: Vec<CudnnEntry>,
}

pub open spec fn entries_view(e: Seq<CudnnEntry>) -> Seq<((Seq<u32>, Seq<char>), Seq<u32>)> {
    Seq::new(e.len(), |i: int| (vv(e[i].cudnn), e[i].cuda_majors@))
}

/// The embedded matrix: the last 8.x line supports CUDA 11 and 12, the 9.x
/// line CUDA 12 and 13.
pub open spec fn embedded_cudnn_entries() -> Seq<((Seq<u32>, Seq<char>), Seq<u32>)> {
    seq![
        ((seq![8u32, 9, 7], "8.9.7"@), seq![11u32, 12]),
        ((seq![9u32, 23, 0], "9.23.0"@), seq![12u32, 13]),
    ]
}

fn majors(a: u32, b: u32) -> (r: Vec<u32>)
    ensures
        r@ == seq![a, b],
{
    let mut r: Vec<u32> = Vec::new();
    r.push(a);
    r.push(b);
    assert(r@ =~= seq![a, b]);
    r
}

/// Whether `v` holds `x`.
pub fn contains_u32(v: &Vec<u32>, x: u32) -> (r: bool)
    ensures
        r == v@.contains(x),
{
    let mut i: usize = 0;
    while i < v.len()
        invariant
            i <= v@.len(),
            forall|k: int| 0 <= k < i ==> v@[k] != x,
        decreases v.len() - i,
    {
        if v[i] == x {
            assert(v@[i as int] == x);
            return true;
        }
        i = i + 1;
    }
    false
}

impl CudnnMatrix {
    /// The embedded matrix.
    pub fn load() -> (m: CudnnMatrix)
        ensures
            entries_view(m.entries@) == embedded_cudnn_entries(),
    {
        let mut entries: Vec<CudnnEntry> = Vec::new();
        entries.push(CudnnEntry { cudnn: ver(&[8, 9, 7], "8.9.7"), cuda_majors: majors(11, 12) });
        entries.push(CudnnEntry { cudnn: ver(&[9, 23, 0], "9.23.0"), cuda_majors: majors(12, 13) });
        let m = CudnnMatrix { entries };
        assert(entries_view(m.entries@) =~= embedded_cudnn_entries());
        m
    }

    /// Find the first entry for a cuDNN version equal (numerically) to `cudnn`.
    pub fn entry_for(&self, cudnn: &Version) -> (r: Option<&CudnnEntry>)
        ensures
            match r {
                Some(e) => exists|i: int|
                    0 <= i < self.entries@.len() && self.entries@[i] == *e && version_order(
                        self.entries@[i].cudnn.fields@,
                        cudnn.fields@,
                    ) == 0 && forall|j: int|
                        0 <= j < i ==> version_order(
                            #[trigger] self.entries@[j].cudnn.fields@,
                            cudnn.fields@,
                        ) != 0,
                None => forall|j: int|
                    0 <= j < self.entries@.len() ==> version_order(
                        #[trigger] self.entries@[j].cudnn.fields@,
                        cudnn.fields@,
                    ) != 0,
            },
    {
        let mut i: usize = 0;
        while i < self.entries.len()
            invariant
                i <= self.entries@.len(),
                forall|j: int|
                    0 <= j < i ==> version_order(
                        #[trigger] self.entries@[j].cudnn.fields@,
                        cudnn.fields@,
                    ) != 0,
            decreases self.entries.len() - i,
        {
            if self.entries[i].cudnn.compare_to(cudnn) == 0 {
                return Some(&self.entries[i]);
            }
            i = i + 1;
        }
        None
    }

    /// The first entry of the cuDNN line of `cudnn`: the entry whose cuDNN
    /// major equals the major of `cudnn`.
    pub fn line_entry_for(&self, cudnn: &Version) -> (r: Option<&CudnnEntry>)
        ensures
            match r {
                Some(e) => exists|i: int|
                    0 <= i < self.entries@.len() && self.entries@[i] == *e && field_at(
                        self.entries@[i].cudnn.fields@,
                        0,
                    ) == field_at(cudnn.fields@, 0) && forall|j: int|
                        0 <= j < i ==> field_at(#[trigger] self.entries@[j].cudnn.fields@, 0)
                            != field_at(cudnn.fields@, 0),
                None => forall|j: int|
                    0 <= j < self.entries@.len() ==> field_at(
                        #[trigger] self.entries@[j].cudnn.fields@,
                        0,
                    ) != field_at(cudnn.fields@, 0),
            },
    {
        let major = cudnn.major();
        let mut i: usize = 0;
        while i < self.entries.len()
            invariant
                i <= self.entries@.len(),
                major == field_at(cudnn.fields@, 0),
                forall|j: int|
                    0 <= j < i ==> field_at(#[trigger] self.entries@[j].cudnn.fields@, 0)
                        != field_at(cudnn.fields@, 0),
            decreases self.entries.len() - i,
        {
            if self.entries[i].cudnn.major() == major {
                return Some(&self.entries[i]);
            }
            i = i + 1;
        }
        None
    }

    /// All cuDNN line representatives whose support set includes this CUDA major,
    /// in matrix order.
    pub fn cudnn_lines_for_cuda_major(&self, cuda_major: u32) -> (r: Vec<Version>)
        ensures
            Seq::new(r@.len(), |i: int| vv(r@[i])) == lines_for_major(
                entries_view(self.entries@),
                cuda_major,
            ),
    {
        let mut out: Vec<Version> = Vec::new();
        let mut i: usize = 0;
        while i < self.entries.len()
            invariant
                i <= self.entries@.len(),
                Seq::new(out@.len(), |k: int| vv(out@[k])) == lines_for_major(
                    entries_view(self.entries@).take(i as int),
                    cuda_major,
                ),
            decreases self.entries.len() - i,
        {
            let ghost ev = entries_view(self.entries@);
            assert(ev.take(i + 1).drop_last() =~= ev.take(i as int));
            let ghost before = Seq::new(out@.len(), |k: int| vv(out@[k]));
            if contains_u32(&self.entries[i].cuda_majors, cuda_major) {
                out.push(self.entries[i].cudnn.copy());
                assert(Seq::new(out@.len(), |k: int| vv(out@[k])) =~= before.push(ev[i as int].0));
            }
            i = i + 1;
        }
        assert(entries_view(self.entries@).take(self.entries@.len() as int) =~= entries_view(
            self.entries@,
        ));
        out
    }
}

/// The cuDNN versions of the entries supporting `major`, in order.
pub open spec fn lines_for_major(e: Seq<((Seq<u32>, Seq<char>), Seq<u32>)>, major: u32) -> Seq<
    (Seq<u32>, Seq<char>),
>
    decreases e.len(),
{
    if e.len() == 0 {
        Seq::<(Seq<u32>, Seq<char>)>::empty()
    } else if e.last().1.contains(major) {
        lines_for_major(e.drop_last(), major).push(e.last().0)
    } else {
        lines_for_major(e.drop_last(), major)
    }
}

} // verus!
