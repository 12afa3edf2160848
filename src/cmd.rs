use vstd::prelude::*;

verus! {

/// One of the eight benchmarked ways of solving a task.
#[derive(Clone, Copy, Debug, PartialEq, Eq, PartialOrd, Ord, Hash, Structural)]
pub enum Mode {
    CpuSingleThreaded,
    CpuMultiThreaded,
    GpuNaive1,
    GpuNaive2,
    GpuNaive3,
    GpuMem1,
    GpuMem2,
    GpuMem3,
}

/// The benchmark's command line, as plain values.
#[derive(Clone, Debug)]
pub struct Cmd {
    /// Modes in which the computation runs.
    pub modes: Vec<Mode>,
    /// The number of matrices.
    pub matrices: usize,
    /// Square matrix dimension.
    pub dimension: usize,
    /// Use the built-in sample task instead of a random one.
    pub sample: bool,
    /// The number of random positions checked in each result matrix.
    pub checked_indices: usize,
}

/// `c` lower-cases (ASCII only) to `target`, a character that is its own lower case.
pub open spec fn folds_to(c: char, target: char) -> bool {
    c == target || ('a' <= target <= 'z' && c as u32 + 32 == target as u32)
}

/// `s` lower-cases (ASCII only) to `name`.
pub open spec fn named(s: Seq<char>, name: Seq<char>) -> bool {
    s.len() == name.len() && forall|i: int| 0 <= i < s.len() ==> folds_to(#[trigger] s[i], name[i])
}

/// The mode that a name stands for, case aside: its number or its short name.
pub open spec fn mode_named(s: Seq<char>) -> Option<Mode> {
    if named(s, seq!['1']) || named(s, seq!['c', '1']) {
        Some(Mode::CpuSingleThreaded)
    } else if named(s, seq!['2']) || named(s, seq!['c', 'm']) {
        Some(Mode::CpuMultiThreaded)
    } else if named(s, seq!['3']) || named(s, seq!['g', 'n', '1']) {
        Some(Mode::GpuNaive1)
    } else if named(s, seq!['4']) || named(s, seq!['g', 'n', '2']) {
        Some(Mode::GpuNaive2)
    } else if named(s, seq!['5']) || named(s, seq!['g', 'n', '3']) {
        Some(Mode::GpuNaive3)
    } else if named(s, seq!['6']) || named(s, seq!['g', 'm', '1']) {
        Some(Mode::GpuMem1)
    } else if named(s, seq!['7']) || named(s, seq!['g', 'm', '2']) {
        Some(Mode::GpuMem2)
    } else if named(s, seq!['8']) || named(s, seq!['g', 'm', '3']) {
        Some(Mode::GpuMem3)
    } else {
        None
    }
}

fn char_folds_to(c: char, target: char) -> (r: bool)
    ensures
        r == folds_to(c, target),
{
    c == target || ('a' <= target && target <= 'z' && (c as u32) + 32 == target as u32)
}

/// `s` lower-cases to the name of the given characters.
fn is_named(s: &Vec<char>, name: &Vec<char>) -> (r: bool)
    ensures
        r == named(s@, name@),
{
    if s.len() != name.len() {
        return false;
    }
    let mut i: usize = 0;
    while i < s.len()
        invariant
            s@.len() == name@.len(),
            i <= s@.len(),
            forall|j: int| 0 <= j < i ==> folds_to(#[trigger] s@[j], name@[j]),
        decreases s@.len() - i,
    {
        if !char_folds_to(s[i], name[i]) {
            return false;
        }
        i = i + 1;
    }
    true
}

fn chars_of(s: &str) -> (r: Vec<char>)
    ensures
        r@ == s@,
{
    let len = s.unicode_len();
    let mut out: Vec<char> = Vec::with_capacity(len);
    let mut i: usize = 0;
    while i < len
        invariant
            len == s@.len(),
            i <= len,
            out@ == s@.subrange(0, i as int),
        decreases len - i,
    {
        out.push(s.get_char(i));
        i = i + 1;
    }
    assert(out@ =~= s@);
    out
}

impl Mode {
    /// The mode named by `s`, ignoring ASCII case: `"1"`/`"c1"`, `"2"`/`"cm"`,
    /// `"3"`/`"gn1"` … `"5"`/`"gn3"`, `"6"`/`"gm1"` … `"8"`/`"gm3"`.
    pub fn parse(s: &str) -> (r: Option<Mode>)
        ensures
            r == mode_named(s@),
    {
        let s = chars_of(s);
        if is_named(&s, &vec!['1']) || is_named(&s, &vec!['c', '1']) {
            Some(Mode::CpuSingleThreaded)
        } else if is_named(&s, &vec!['2']) || is_named(&s, &vec!['c', 'm']) {
            Some(Mode::CpuMultiThreaded)
        } else if is_named(&s, &vec!['3']) || is_named(&s, &vec!['g', 'n', '1']) {
            Some(Mode::GpuNaive1)
        } else if is_named(&s, &vec!['4']) || is_named(&s, &vec!['g', 'n', '2']) {
            Some(Mode::GpuNaive2)
        } else if is_named(&s, &vec!['5']) || is_named(&s, &vec!['g', 'n', '3']) {
            Some(Mode::GpuNaive3)
        } else if is_named(&s, &vec!['6']) || is_named(&s, &vec!['g', 'm', '1']) {
            Some(Mode::GpuMem1)
        } else if is_named(&s, &vec!['7']) || is_named(&s, &vec!['g', 'm', '2']) {
            Some(Mode::GpuMem2)
        } else if is_named(&s, &vec!['8']) || is_named(&s, &vec!['g', 'm', '3']) {
            Some(Mode::GpuMem3)
        } else {
            None
        }
    }
}

} // verus!
