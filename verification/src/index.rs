//! Indexing: every session that has no embedding yet gets one, in order.
use vstd::prelude::*;

use crate::number::{decimal, usize_text};

verus! {

/// How far an indexing run has come.
#[derive(Debug)]
pub struct IndexRun {
    pub total: usize,
    pub done: usize,
}

/// How an indexing run starts.
#[derive(Debug)]
pub enum IndexStart {
    /// There is nothing to do but print this line.
    Stop(String),
    /// Print the line, then index the sessions.
    Begin(String, IndexRun),
}

/// What to do next in an indexing run.
#[derive(Debug)]
pub enum IndexNext {
    /// Index the session at this position, then report it.
    Embed(usize),
    /// Print this line. The run is over.
    Finish(String),
}

/// The line that announces a run over `total` sessions.
pub open spec fn begin_view(total: int) -> Seq<char> {
    "Indexing "@ + decimal(total) + " sessions..."@
}

/// The progress of a run, written over what was shown of it before.
pub open spec fn progress_view(done: int, total: int) -> Seq<char> {
    "\r  "@ + decimal(done) + "/"@ + decimal(total)
}

/// The line that ends a run over `total` sessions.
pub open spec fn finish_view(total: int) -> Seq<char> {
    "\nDone. "@ + decimal(total) + " sessions indexed."@
}

impl IndexRun {
    /// No more sessions are done than there are.
    pub open spec fn well_formed(self) -> bool {
        self.done <= self.total
    }
}

impl IndexRun {
    /// The position of the session to index next, where one is left.
    pub open spec fn current(self) -> Option<usize> {
        if self.done < self.total {
            Some(self.done)
        } else {
            None
        }
    }

    /// The run after one more session.
    pub open spec fn advanced(self) -> IndexRun {
        IndexRun { total: self.total, done: (self.done + 1) as usize }
    }

    /// The run after `n` more sessions.
    pub open spec fn advanced_by(self, n: nat) -> IndexRun
        decreases n,
    {
        if n == 0 {
            self
        } else {
            self.advanced_by((n - 1) as nat).advanced()
        }
    }
}

/// A run indexes every session once, in order, and then ends.
pub proof fn lemma_run_covers_every_session(total: usize, n: nat)
    requires
        n <= total,
    ensures
        (IndexRun { total, done: 0 }).advanced_by(n).current() == (if n < total {
            Some(n as usize)
        } else {
            None
        }),
        (IndexRun { total, done: 0 }).advanced_by(n) == (IndexRun { total, done: n as usize }),
    decreases n,
{
    if n > 0 {
        lemma_run_covers_every_session(total, (n - 1) as nat);
    }
}

/// The lines of a run name the number of sessions, and the progress names both how many
/// are done and how many there are.
pub proof fn lemma_lines_name_the_numbers(done: int, total: int)
    ensures
        begin_view(total) == "Indexing "@ + decimal(total) + " sessions..."@,
        progress_view(done, total) == "\r  "@ + decimal(done) + "/"@ + decimal(total),
        finish_view(total) == "\nDone. "@ + decimal(total) + " sessions indexed."@,
{
}

/// A run is as it should be as long as no more sessions are done than there are. When all
/// are done there is none to index next.
pub proof fn lemma_run_may_be_anywhere_up_to_its_end(run: IndexRun)
    ensures
        run.well_formed() <==> run.done <= run.total,
        run.current() is Some <==> run.done < run.total,
{
}

/// A step moves on by one session and leaves the number of sessions alone. The next
/// session is the one behind those that are done, as long as there is one.
pub proof fn lemma_step_moves_on_by_one(run: IndexRun)
    requires
        run.done < run.total,
    ensures
        run.current() == Some(run.done),
        run.advanced().done == run.done + 1,
        run.advanced().total == run.total,
        run.done + 1 == run.total ==> run.advanced().current() is None,
{
}

/// Starts a run over `total` sessions. Without a model nothing can be indexed.
pub fn index_all_sessions(model_loaded: bool, total: usize) -> (start: IndexStart)
    ensures
        match start {
            IndexStart::Stop(line) => {
                &&& !model_loaded || total == 0
                &&& line@ == (if !model_loaded {
                    "Failed to load embedding model."@
                } else {
                    "All sessions already indexed."@
                })
            },
            IndexStart::Begin(line, run) => {
                &&& model_loaded && total > 0
                &&& line@ == begin_view(total as int)
                &&& run == (IndexRun { total, done: 0 })
            },
        },
{
    if !model_loaded {
        return IndexStart::Stop("Failed to load embedding model.".to_string());
    }
    if total == 0 {
        return IndexStart::Stop("All sessions already indexed.".to_string());
    }
    let mut line = "Indexing ".to_string();
    line.append(usize_text(total).as_str());
    line.append(" sessions...");
    IndexStart::Begin(line, IndexRun { total, done: 0 })
}

impl IndexRun {
    /// What to do next.
    pub fn next(&self) -> (next: IndexNext)
        requires
            self.well_formed(),
        ensures
            match next {
                IndexNext::Embed(i) => self.current() == Some(i),
                IndexNext::Finish(line) => self.current() is None && line@ == finish_view(
                    self.total as int,
                ),
            },
    {
        if self.done < self.total {
            return IndexNext::Embed(self.done);
        }
        let mut line = "\nDone. ".to_string();
        line.append(usize_text(self.total).as_str());
        line.append(" sessions indexed.");
        IndexNext::Finish(line)
    }

    /// Notes that the session at the current position has been dealt with, whether it
    /// could be embedded or not. The result is the progress to show.
    pub fn advance(&mut self) -> (progress: String)
        requires
            old(self).well_formed(),
            old(self).current() is Some,
        ensures
            final(self).well_formed(),
            *final(self) == old(self).advanced(),
            progress@ == progress_view(final(self).done as int, final(self).total as int),
    {
        self.done = self.done + 1;
        let mut progress = "\r  ".to_string();
        progress.append(usize_text(self.done).as_str());
        progress.append("/");
        progress.append(usize_text(self.total).as_str());
        progress
    }
}

} // verus!
