//! The lines that are kept of what happens at the start, until they are asked for.
use crate::text::{chars_of, push_text};
use std::collections::VecDeque;
use vstd::prelude::*;
use vstd::utf8::encode_utf8;

verus! {

/// How many lines are kept.
pub const MAX_LINES: usize = 256;

/// Whether a text begins with another.
pub open spec fn starts(s: Seq<char>, with: Seq<char>) -> bool {
    with.is_prefix_of(s)
}

/// A message with a mark of its weight, unless it has one.
pub open spec fn marked(message: Seq<char>) -> Seq<char> {
    if starts(message, "["@) {
        message
    } else if starts(message, "fatal."@) {
        "[ERROR] "@ + message
    } else {
        "[INFO] "@ + message
    }
}

/// The lines with one more, without the oldest where there are enough.
pub open spec fn logged(lines: Seq<Seq<char>>, message: Seq<char>) -> Seq<Seq<char>> {
    (if lines.len() == MAX_LINES {
        lines.drop_first()
    } else {
        lines
    }).push(marked(message))
}

/// How many bytes a line adds to `used` bytes: its own, and the end of the line
/// before it.
pub open spec fn line_cost(line: Seq<char>, used: nat) -> nat {
    encode_utf8(line).len() + if used > 0 {
        1nat
    } else {
        0nat
    }
}

/// How many lines from the front fit with a zero byte behind them.
pub open spec fn fitting(lines: Seq<Seq<char>>, used: nat, capacity: nat) -> nat
    decreases lines.len(),
{
    if lines.len() == 0 || used + line_cost(lines[0], used) >= capacity {
        0
    } else {
        1 + fitting(lines.drop_first(), used + line_cost(lines[0], used), capacity)
    }
}

/// The bytes of lines, with ends between them.
pub open spec fn joined(lines: Seq<Seq<char>>) -> Seq<u8>
    decreases lines.len(),
{
    if lines.len() == 0 {
        Seq::empty()
    } else {
        let before = joined(lines.drop_last());
        (if before.len() > 0 {
            before.push(10)
        } else {
            before
        }) + encode_utf8(lines.last())
    }
}

/// How many lines are handed out: none where there is no room for a character.
pub open spec fn drained(lines: Seq<Seq<char>>, capacity: nat) -> nat {
    if capacity < 2 {
        0
    } else {
        fitting(lines, 0, capacity)
    }
}

/// The lines that are kept.
#[derive(Debug)]
pub struct BootLog {
    lines: VecDeque<String>,
}

impl View for BootLog {
    type V = Seq<Seq<char>>;

    closed spec fn view(&self) -> Seq<Seq<char>> {
        self.lines@.map_values(|s: String| s@)
    }
}

fn starts_with(message: &str, with: &str) -> (r: bool)
    ensures
        r == starts(message@, with@),
{
    let v = chars_of(message);
    let w = chars_of(with);
    if v.len() < w.len() {
        return false;
    }
    let mut i: usize = 0;
    while i < w.len()
        invariant
            i <= w@.len() <= v@.len(),
            v@ == message@,
            w@ == with@,
            forall|j: int| 0 <= j < i ==> #[trigger] w@[j] == v@[j],
        decreases w@.len() - i,
    {
        if v[i] != w[i] {
            return false;
        }
        i = i + 1;
    }
    proof {
        assert(w@ =~= v@.subrange(0, w@.len() as int));
    }
    true
}

fn mark(message: &str) -> (line: String)
    ensures
        line@ == marked(message@),
{
    let mut line = String::new();
    if !starts_with(message, "[") {
        if starts_with(message, "fatal.") {
            push_text(&mut line, "[ERROR] ");
        } else {
            push_text(&mut line, "[INFO] ");
        }
    }
    push_text(&mut line, message);
    proof {
        assert(line@ =~= marked(message@));
    }
    line
}

impl BootLog {
    #[verifier::type_invariant]
    spec fn bounded(self) -> bool {
        self.lines@.len() <= MAX_LINES
    }

    pub fn new() -> (log: BootLog)
        ensures
            log@ == Seq::<Seq<char>>::empty(),
    {
        let lines: VecDeque<String> = VecDeque::new();
        proof {
            assert(lines@.map_values(|s: String| s@) =~= Seq::empty());
        }
        BootLog { lines }
    }

    /// Forgets all lines.
    pub fn clear(&mut self)
        ensures
            final(self)@ == Seq::<Seq<char>>::empty(),
    {
        let lines: VecDeque<String> = VecDeque::new();
        proof {
            assert(lines@.map_values(|s: String| s@) =~= Seq::empty());
        }
        self.lines = lines;
    }

    /// Keeps a message.
    pub fn log(&mut self, message: &str)
        ensures
            final(self)@ == logged(old(self)@, message@),
            final(self)@.len() <= MAX_LINES,
    {
        proof {
            use_type_invariant(&*self);
        }
        let ghost before = self@;
        let mut lines: VecDeque<String> = VecDeque::new();
        std::mem::swap(&mut lines, &mut self.lines);
        if lines.len() == MAX_LINES {
            let oldest = lines.pop_front();
        }
        let ghost kept = lines@;
        let line = mark(message);
        lines.push_back(line);
        proof {
            assert(lines@.map_values(|s: String| s@) =~= logged(before, message@));
        }
        self.lines = lines;
    }

    /// Hands out the oldest lines that fit into a buffer with a zero byte behind
    /// them.
    pub fn drain(&mut self, capacity: usize) -> (bytes: Vec<u8>)
        ensures
            bytes@ == joined(old(self)@.take(drained(old(self)@, capacity as nat) as int)),
            final(self)@ == old(self)@.skip(drained(old(self)@, capacity as nat) as int),
            capacity >= 2 ==> bytes@.len() < capacity,
    {
        let mut bytes: Vec<u8> = Vec::new();
        let ghost all = self@;
        proof {
            use_type_invariant(&*self);
            assert(all.take(0) =~= Seq::empty());
            assert(all.skip(0) =~= all);
            assert(bytes@ =~= Seq::<u8>::empty());
        }
        if capacity < 2 {
            return bytes;
        }
        let mut lines: VecDeque<String> = VecDeque::new();
        std::mem::swap(&mut lines, &mut self.lines);
        let ghost mut n: int = 0;
        proof {
            assert(lines@.map_values(|s: String| s@) == all);
        }
        let mut full: bool = false;
        while !full && lines.len() > 0
            invariant
                capacity >= 2,
                0 <= n <= all.len(),
                lines@.map_values(|s: String| s@) == all.skip(n),
                lines@.len() <= MAX_LINES,
                bytes@ == joined(all.take(n)),
                bytes@.len() < capacity,
                fitting(all, 0, capacity as nat) == n + fitting(
                    all.skip(n),
                    bytes@.len(),
                    capacity as nat,
                ),
                full ==> fitting(all.skip(n), bytes@.len(), capacity as nat) == 0,
            decreases lines@.len() + if full {
                0nat
            } else {
                1nat
            },
        {
            proof {
                assert(lines@.map_values(|s: String| s@)[0] == lines@[0]@);
                assert(all.skip(n)[0] == all[n]);
                assert(all.skip(n).drop_first() =~= all.skip(n + 1));
                assert(all.take(n + 1).drop_last() =~= all.take(n));
            }
            let next = lines[0].as_str().as_bytes();
            let used: usize = bytes.len();
            let separator: usize = if used > 0 {
                1
            } else {
                0
            };
            if next.len() >= capacity - used - separator {
                full = true;
            } else {
                if used > 0 {
                    bytes.push(10);
                }
                bytes.extend_from_slice(next);
                let ghost rest = lines@;
                let taken = lines.pop_front();
                proof {
                    assert(bytes@ =~= joined(all.take(n + 1)));
                    assert(rest.map_values(|s: String| s@).drop_first() =~= lines@.map_values(
                        |s: String| s@,
                    ));
                    n = n + 1;
                }
            }
        }
        self.lines = lines;
        bytes
    }
}

/// Handing lines out loses none: what was kept is what is handed out and what is
/// kept still.
pub proof fn law_drain_loses_nothing(lines: Seq<Seq<char>>, capacity: nat)
    ensures
        drained(lines, capacity) <= lines.len(),
        lines.take(drained(lines, capacity) as int) + lines.skip(drained(lines, capacity) as int)
            == lines,
{
    lemma_fitting_bounded(lines, 0, capacity);
    assert(lines.take(drained(lines, capacity) as int) + lines.skip(
        drained(lines, capacity) as int,
    ) =~= lines);
}

proof fn lemma_fitting_bounded(lines: Seq<Seq<char>>, used: nat, capacity: nat)
    ensures
        fitting(lines, used, capacity) <= lines.len(),
    decreases lines.len(),
{
    if lines.len() > 0 && used + line_cost(lines[0], used) < capacity {
        lemma_fitting_bounded(
            lines.drop_first(),
            used + line_cost(lines[0], used),
            capacity,
        );
    }
}

} // verus!
