//! Positional markers.
//!
//! A `Mark` attributes a node of the program to the bytes of source text that
//! it came from; a `CodeMap` turns such byte offsets into lines and columns.
use vstd::prelude::*;
use vstd::std_specs::cmp::PartialEqSpec;
use vstd::utf8::encode_utf8;
use vstd::string::StringExecFns;
use crate::util::text::{decimal, usize_text};

verus! {

/// The byte offsets `[lo, hi)` of a piece of the source program; `lo <= hi`.
#[derive(Clone, Copy, PartialEq, Eq, Structural, Debug)]
pub struct Mark {
    pub lo: usize,
    pub hi: usize,
}

/// A node together with the mark of the text it was produced from.
///
/// The mark is only metadata: it is carried along for diagnostics.
#[derive(Clone, Copy, Debug)]
pub struct Marked<T> {
    pub mark: Mark,
    pub node: T,
}

/// The text of a source program and the name of its file, used to turn a
/// `Mark` into lines and columns.
#[derive(Clone)]
pub struct CodeMap {
    code: String,
    file: String,
}

/// The mark that stands for the program as a whole rather than a place in it.
pub open spec fn spec_dummy_mark() -> Mark {
    Mark { lo: 0, hi: 0 }
}

/// The mark that stands for the program as a whole rather than a place in it.
pub fn dummy_mark() -> (r: Mark)
    ensures
        r == spec_dummy_mark(),
{
    Mark { lo: 0, hi: 0 }
}

/// The number of newline bytes in `b`.
pub open spec fn newlines(b: Seq<u8>) -> nat
    decreases b.len(),
{
    if b.len() == 0 {
        0
    } else {
        newlines(b.drop_last()) + if b.last() == 10u8 {
            1nat
        } else {
            0nat
        }
    }
}

/// The offset just past the last newline byte in `b`, or 0 if there is none.
pub open spec fn line_start(b: Seq<u8>) -> nat
    decreases b.len(),
{
    if b.len() == 0 {
        0
    } else if b.last() == 10u8 {
        b.len()
    } else {
        line_start(b.drop_last())
    }
}

/// The 1-based (line, column) of byte `offset` in the text `b`.
///
/// A newline byte counts as column 0 of the line that follows it; an offset at
/// or past the end of the text lies at column 1 of the line after the last.
pub open spec fn linecol_of(b: Seq<u8>, offset: nat) -> (nat, nat) {
    if offset < b.len() {
        let p = b.subrange(0, offset + 1 as int);
        (newlines(p) + 1, (offset + 1 - line_start(p)) as nat)
    } else {
        (newlines(b) + 2, 1)
    }
}

/// `l1:c1-l2:c2`, the lines and columns of both ends of `m` in `b`.
pub open spec fn mark_text(b: Seq<u8>, m: Mark) -> Seq<char> {
    let (l1, c1) = linecol_of(b, m.lo as nat);
    let (l2, c2) = linecol_of(b, m.hi as nat);
    decimal(l1) + ":"@ + decimal(c1) + "-"@ + decimal(l2) + ":"@ + decimal(c2)
}

/// Counts the newlines among the first `end` bytes of `b`, and finds where the
/// line holding the last of those bytes starts.
fn scan_lines(b: &[u8], end: usize) -> (r: (usize, usize))
    requires
        end <= b@.len(),
    ensures
        r.0 as nat == newlines(b@.subrange(0, end as int)),
        r.1 as nat == line_start(b@.subrange(0, end as int)),
        r.0 <= end,
        r.1 <= end,
{
    let mut i: usize = 0;
    let mut nl: usize = 0;
    let mut start: usize = 0;
    while i < end
        invariant
            i <= end <= b@.len(),
            nl as nat == newlines(b@.subrange(0, i as int)),
            start as nat == line_start(b@.subrange(0, i as int)),
            nl <= i,
            start <= i,
        decreases end - i,
    {
        proof {
            assert(b@.subrange(0, i + 1).drop_last() =~= b@.subrange(0, i as int));
        }
        if b[i] == 10u8 {
            nl = nl + 1;
            start = i + 1;
        }
        i = i + 1;
    }
    (nl, start)
}

impl Mark {
    /// A mark never ends before it starts.
    pub open spec fn wf(&self) -> bool {
        self.lo <= self.hi
    }

    /// Creates a new `Mark` which is bounded by `lo` and `hi` in the source
    /// code of the original program.
    pub fn new(lo: usize, hi: usize) -> (r: Mark)
        requires
            lo <= hi,
        ensures
            r == (Mark { lo, hi }),
            r.wf(),
    {
        Mark { lo: lo, hi: hi }
    }

    /// Renders this mark as `l1:c1-l2:c2`, the lines and columns of its ends.
    pub fn to_string(&self, cm: &CodeMap) -> (r: String)
        requires
            cm.wf(),
        ensures
            r@ == mark_text(cm.bytes(), *self),
    {
        let (loline, locol) = cm.linecol(self.lo);
        let (hiline, hicol) = cm.linecol(self.hi);
        let mut r = usize_text(loline);
        r.append(":");
        r.append(usize_text(locol).as_str());
        r.append("-");
        r.append(usize_text(hiline).as_str());
        r.append(":");
        r.append(usize_text(hicol).as_str());
        r
    }
}

impl<T> Marked<T> {
    /// Creates a marked node.
    pub fn new(t: T, mark: Mark) -> (r: Marked<T>)
        ensures
            r.node == t,
            r.mark == mark,
    {
        Marked { node: t, mark: mark }
    }

    /// Unwraps the node held in this marked node.
    pub fn unwrap(self) -> (r: T)
        ensures
            r == self.node,
    {
        self.node
    }
}

/// Marked nodes compare by their nodes; the marks are only metadata.
impl<T: PartialEq + PartialEqSpec> PartialEq for Marked<T> {
    fn eq(&self, other: &Marked<T>) -> (r: bool) {
        self.node.eq(&other.node)
    }
}

impl<T: PartialEq + PartialEqSpec> vstd::std_specs::cmp::PartialEqSpecImpl for Marked<T> {
    open spec fn obeys_eq_spec() -> bool {
        T::obeys_eq_spec()
    }

    open spec fn eq_spec(&self, other: &Marked<T>) -> bool {
        self.node.eq_spec(&other.node)
    }
}

impl CodeMap {
    /// The source text.
    pub closed spec fn text(&self) -> Seq<char> {
        self.code@
    }

    /// The source text as UTF-8 bytes, which marks index.
    pub open spec fn bytes(&self) -> Seq<u8> {
        encode_utf8(self.text())
    }

    /// The name of the source file.
    pub closed spec fn file_name(&self) -> Seq<char> {
        self.file@
    }

    /// Line numbers stay representable: the text is shorter than the largest
    /// `usize` by more than one.
    pub open spec fn wf(&self) -> bool {
        self.bytes().len() + 2 <= usize::MAX
    }

    /// Creates a new code map for the program text `code` read from `file`.
    pub fn new(code: String, file: String) -> (r: CodeMap)
        requires
            encode_utf8(code@).len() + 2 <= usize::MAX,
        ensures
            r.text() == code@,
            r.file_name() == file@,
            r.wf(),
    {
        CodeMap { code: code, file: file }
    }

    /// Converts a byte offset into a (line, column) pair, both 1-based.
    pub fn linecol(&self, offset: usize) -> (r: (usize, usize))
        requires
            self.wf(),
        ensures
            (r.0 as nat, r.1 as nat) == linecol_of(self.bytes(), offset as nat),
    {
        let b = self.code.as_str().as_bytes();
        if offset < b.len() {
            let (nl, start) = scan_lines(b, offset + 1);
            (nl + 1, offset + 1 - start)
        } else {
            let (nl, _start) = scan_lines(b, b.len());
            proof {
                assert(b@.subrange(0, b@.len() as int) =~= b@);
            }
            (nl + 2, 1)
        }
    }

    /// Returns the name of the file that this code map represents.
    pub fn file(&self) -> (r: &str)
        ensures
            r@ == self.file_name(),
    {
        self.file.as_str()
    }
}

} // verus!
