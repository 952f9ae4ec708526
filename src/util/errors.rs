//! Collects the diagnostics of one compilation.
//!
//! Each diagnostic is rendered to one line of text as it is reported. Whether
//! compilation goes on is the caller's decision: `check` and `die` hand back a
//! `Fatal` value that carries every line reported so far.
use vstd::prelude::*;
use vstd::string::StringExecFns;
use crate::util::mark::{CodeMap, Mark, mark_text, spec_dummy_mark, dummy_mark};
use crate::util::text::texts;

verus! {

/// The diagnostics of one compilation, and the code map that places them.
#[derive(Clone)]
pub struct Errors {
    cm: CodeMap,
    errored: bool,
    lines: Vec<String>,
}

/// Compilation cannot go on; `diagnostics` holds every line reported.
pub struct Fatal {
    pub diagnostics: Vec<String>,
}

/// The line reported for `msg` at `m`: `file:l1:c1-l2:c2error: msg`, or just
/// `error: msg` for the mark of the whole program.
pub open spec fn diagnostic_line(cm: CodeMap, m: Mark, msg: Seq<char>) -> Seq<char> {
    if m == spec_dummy_mark() {
        "error: "@ + msg
    } else {
        cm.file_name() + ":"@ + mark_text(cm.bytes(), m) + "error: "@ + msg
    }
}

impl Errors {
    /// The code map that diagnostics are placed with.
    pub closed spec fn code_map(&self) -> CodeMap {
        self.cm
    }

    /// Whether an error has been reported.
    pub closed spec fn has_errored(&self) -> bool {
        self.errored
    }

    /// The lines reported so far, in order.
    pub closed spec fn reported(&self) -> Seq<Seq<char>> {
        texts(self.lines@)
    }

    pub open spec fn wf(&self) -> bool {
        self.code_map().wf()
    }

    /// Creates a collector that places its diagnostics with `cm`.
    pub fn new(cm: CodeMap) -> (r: Errors)
        requires
            cm.wf(),
        ensures
            r.wf(),
            r.code_map() == cm,
            !r.has_errored(),
            r.reported() == Seq::<Seq<char>>::empty(),
    {
        let r = Errors { cm: cm, errored: false, lines: Vec::new() };
        assert(r.reported() =~= Seq::<Seq<char>>::empty());
        r
    }

    /// Renders the line for `msg` at `m`.
    fn render(&self, m: &Mark, msg: &str) -> (r: String)
        requires
            self.wf(),
        ensures
            r@ == diagnostic_line(self.code_map(), *m, msg@),
    {
        let mut line = String::new();
        if *m != dummy_mark() {
            line.append(self.cm.file());
            line.append(":");
            line.append(m.to_string(&self.cm).as_str());
        }
        line.append("error: ");
        line.append(msg);
        proof {
            if *m == spec_dummy_mark() {
                assert(line@ =~= "error: "@ + msg@);
            } else {
                assert(line@ =~= diagnostic_line(self.code_map(), *m, msg@));
            }
        }
        line
    }

    /// Reports an error for the mark `m`.
    ///
    /// This does not stop compilation, so that more errors can be reported.
    pub fn add(&mut self, m: &Mark, msg: &str)
        requires
            old(self).wf(),
        ensures
            final(self).wf(),
            final(self).code_map() == old(self).code_map(),
            final(self).has_errored(),
            final(self).reported() == old(self).reported().push(
                diagnostic_line(old(self).code_map(), *m, msg@),
            ),
    {
        let line = self.render(m, msg);
        self.lines.push(line);
        self.errored = true;
        proof {
            assert(final(self).reported() =~= old(self).reported().push(
                diagnostic_line(old(self).code_map(), *m, msg@),
            ));
        }
    }

    /// Reports an error for the mark `m` and stops compilation.
    pub fn die(&self, m: &Mark, msg: &str) -> (r: Fatal)
        requires
            self.wf(),
        ensures
            texts(r.diagnostics@) == self.reported().push(
                diagnostic_line(self.code_map(), *m, msg@),
            ),
    {
        let mut diagnostics = self.copy_lines();
        let line = self.render(m, msg);
        diagnostics.push(line);
        proof {
            assert(texts(diagnostics@) =~= self.reported().push(
                diagnostic_line(self.code_map(), *m, msg@),
            ));
        }
        Fatal { diagnostics }
    }

    /// A copy of the lines reported so far.
    fn copy_lines(&self) -> (r: Vec<String>)
        ensures
            texts(r@) == self.reported(),
    {
        let mut copy: Vec<String> = Vec::new();
        let mut i: usize = 0;
        while i < self.lines.len()
            invariant
                i <= self.lines@.len(),
                copy@.len() == i,
                texts(copy@) == texts(self.lines@.subrange(0, i as int)),
            decreases self.lines@.len() - i,
        {
            let ghost old_copy = copy;
            let line = self.lines[i].clone();
            assert(line@ == self.lines@[i as int]@);
            copy.push(line);
            proof {
                assert forall|j: int| 0 <= j < i + 1 implies texts(copy@)[j]
                    == texts(self.lines@.subrange(0, i + 1))[j] by {
                    if j < i {
                        assert(copy@[j]@ == texts(old_copy@)[j]);
                    }
                }
                assert(texts(copy@) =~= texts(self.lines@.subrange(0, i + 1)));
            }
            i = i + 1;
        }
        proof {
            assert(self.lines@.subrange(0, self.lines@.len() as int) =~= self.lines@);
        }
        copy
    }

    /// The lines reported so far, in order.
    pub fn lines(&self) -> (r: &Vec<String>)
        ensures
            texts(r@) == self.reported(),
    {
        &self.lines
    }

    /// Stops compilation if an error has been reported.
    pub fn check(&self) -> (r: Result<(), Fatal>)
        ensures
            r is Err <==> self.has_errored(),
            r matches Err(f) ==> texts(f.diagnostics@) == self.reported(),
    {
        if self.errored {
            Err(Fatal { diagnostics: self.copy_lines() })
        } else {
            Ok(())
        }
    }
}

} // verus!
