//! The beginning of an input: its first lines or its first bytes.
use vstd::prelude::*;

verus! {

/// What to print of each input.
#[derive(Clone, Copy, Debug, PartialEq, Eq, Structural)]
pub enum HeadMode {
    /// The first bytes.
    Bytes(usize),
    /// The first lines.
    Lines(usize),
}

impl HeadMode {
    /// The mode the options ask for: a byte count where one is given, else the
    /// line count.
    pub fn from_options(bytes: Option<usize>, lines: usize) -> (r: HeadMode)
        ensures
            bytes matches Some(n) ==> r == HeadMode::Bytes(n),
            bytes is None ==> r == HeadMode::Lines(lines),
    {
        match bytes {
            Some(n) => HeadMode::Bytes(n),
            None => HeadMode::Lines(lines),
        }
    }
}

pub open spec fn min(a: nat, b: nat) -> nat {
    if a <= b {
        a
    } else {
        b
    }
}

/// The first `n` lines, or all of them where there are fewer.
pub fn head_lines(lines: &[String], n: usize) -> (r: Vec<String>)
    ensures
        r@.map_values(|s: String| s@) == lines@.map_values(|s: String| s@).take(
            min(n as nat, lines@.len()) as int,
        ),
{
    let mut out: Vec<String> = Vec::new();
    let mut i: usize = 0;
    while i < n && i < lines.len()
        invariant
            i <= lines@.len(),
            i <= n,
            out@.map_values(|s: String| s@) == lines@.map_values(|s: String| s@).take(i as int),
        decreases lines@.len() - i,
    {
        let ghost before = out@.map_values(|s: String| s@);
        out.push(lines[i].clone());
        assert(out@.map_values(|s: String| s@) =~= before.push(lines@[i as int]@));
        i = i + 1;
        assert(out@.map_values(|s: String| s@) =~= lines@.map_values(|s: String| s@).take(
            i as int,
        ));
    }
    out
}

/// The first `n` bytes, or all of them where there are fewer.
pub fn head_bytes(data: &[u8], n: usize) -> (r: Vec<u8>)
    ensures
        r@ == data@.take(min(n as nat, data@.len()) as int),
{
    let mut out: Vec<u8> = Vec::new();
    let mut i: usize = 0;
    while i < n && i < data.len()
        invariant
            i <= data@.len(),
            i <= n,
            out@ == data@.take(i as int),
        decreases data@.len() - i,
    {
        out.push(data[i]);
        i = i + 1;
        assert(out@ =~= data@.take(i as int));
    }
    out
}

} // verus!
