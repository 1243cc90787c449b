//! The console log: the newest text lines, up to a fixed number.

use std::collections::VecDeque;
use vstd::prelude::*;

verus! {

/// Number of lines that a log made by [`ConsoleLog::new`] keeps.
pub const CONSOLE_CAPACITY: usize = 30;

/// The newest `capacity` of `lines`, oldest first.
pub open spec fn newest(lines: Seq<Seq<char>>, capacity: nat) -> Seq<Seq<char>> {
    if lines.len() <= capacity {
        lines
    } else {
        lines.subrange(lines.len() - capacity, lines.len() as int)
    }
}

/// A log that keeps the newest lines and drops the oldest once it is full.
pub struct ConsoleLog {
    lines: VecDeque<String>,
    capacity: usize,
}

impl View for ConsoleLog {
    type V = Seq<Seq<char>>;

    /// The lines kept, oldest first.
    closed spec fn view(&self) -> Seq<Seq<char>> {
        self.lines@.map_values(|line: String| line@)
    }
}

impl ConsoleLog {
    /// The number of lines that the log keeps at most.
    pub closed spec fn spec_capacity(&self) -> nat {
        self.capacity as nat
    }

    /// The log holds no more lines than its capacity.
    pub open spec fn wf(&self) -> bool {
        self@.len() <= self.spec_capacity()
    }

    /// An empty log that keeps [`CONSOLE_CAPACITY`] lines.
    pub fn new() -> (log: ConsoleLog)
        ensures
            log.wf(),
            log@ == Seq::<Seq<char>>::empty(),
            log.spec_capacity() == CONSOLE_CAPACITY,
    {
        ConsoleLog::with_capacity(CONSOLE_CAPACITY)
    }

    /// An empty log that keeps `capacity` lines.
    pub fn with_capacity(capacity: usize) -> (log: ConsoleLog)
        ensures
            log.wf(),
            log@ == Seq::<Seq<char>>::empty(),
            log.spec_capacity() == capacity,
    {
        let log = ConsoleLog { lines: VecDeque::new(), capacity };
        proof {
            assert(log@ =~= Seq::<Seq<char>>::empty());
        }
        log
    }

    /// The number of lines that the log keeps at most.
    pub fn capacity(&self) -> (capacity: usize)
        ensures
            capacity == self.spec_capacity(),
    {
        self.capacity
    }

    /// The number of lines kept.
    pub fn len(&self) -> (len: usize)
        ensures
            len == self@.len(),
    {
        self.lines.len()
    }

    /// The line at `index`, counted from the oldest; `None` past the end.
    pub fn line(&self, index: usize) -> (line: Option<&String>)
        ensures
            match line {
                Some(text) => index < self@.len() && text@ == self@[index as int],
                None => index >= self@.len(),
            },
    {
        if index < self.lines.len() {
            Some(&self.lines[index])
        } else {
            None
        }
    }

    /// Appends a line. A full log drops its oldest line to make room.
    pub fn push(&mut self, line: String)
        requires
            old(self).wf(),
        ensures
            final(self).wf(),
            final(self).spec_capacity() == old(self).spec_capacity(),
            final(self)@ == newest(old(self)@.push(line@), old(self).spec_capacity()),
    {
        if self.capacity == 0 {
            proof {
                assert(newest(self@.push(line@), 0) =~= self@);
            }
            return ;
        }
        if self.lines.len() >= self.capacity {
            self.lines.pop_front();
        }
        self.lines.push_back(line);
        proof {
            assert(self@ =~= newest(old(self)@.push(line@), old(self).spec_capacity()));
        }
    }
}

/// Dropping old lines early loses nothing: the newest lines of a log to
/// which further lines were appended are the newest of all lines.
pub proof fn lemma_newest_absorbs(lines: Seq<Seq<char>>, more: Seq<Seq<char>>, capacity: nat)
    ensures
        newest(newest(lines, capacity) + more, capacity) == newest(lines + more, capacity),
{
    assert(newest(newest(lines, capacity) + more, capacity) =~= newest(lines + more, capacity));
}

} // verus!
