//! Byte-budgeted buffer of console output lines.
//!
//! Lines arrive asynchronously on a channel; [`ConsoleAccess`] keeps the
//! newest lines whose byte lengths fit the response-content budget,
//! dropping the oldest on every push.

use vstd::prelude::*;
use vstd::utf8::encode_utf8;
use crate::codec::MAX_CONTENT_SIZE;

verus! {

/// `std::sync::mpsc::Receiver` carried inside [`ConsoleAccess`]; opaque
/// to the verifier, read only through [`ConsoleAccess::next_line`].
#[verifier::external_type_specification]
#[verifier::external_body]
#[verifier::reject_recursive_types(T)]
pub struct ExReceiver<T>(std::sync::mpsc::Receiver<T>);

/// Byte length of one line as it would serialize into a packet.
pub open spec fn line_len(l: Seq<char>) -> int {
    encode_utf8(l).len() as int
}

/// Summed byte length of a sequence of lines.
pub open spec fn total_len(lines: Seq<Seq<char>>) -> int
    decreases lines.len(),
{
    if lines.len() == 0 {
        0
    } else {
        total_len(lines.drop_last()) + line_len(lines.last())
    }
}

/// How many of the newest lines fit within `room` bytes, walking from the
/// newest backwards and stopping at the first line that does not fit.
pub open spec fn keep_count(lines: Seq<Seq<char>>, room: int) -> int
    decreases lines.len(),
{
    if lines.len() == 0 {
        0
    } else if line_len(lines.last()) <= room {
        1 + keep_count(lines.drop_last(), room - line_len(lines.last()))
    } else {
        0
    }
}

/// The buffer after one push: the newest lines that still fit beside the
/// new line's length are kept, every older line is dropped, and the new
/// line is appended — whatever its own length.
pub open spec fn buffer_after_push(buf: Seq<Seq<char>>, line: Seq<char>) -> Seq<Seq<char>> {
    let keep = keep_count(buf, MAX_CONTENT_SIZE - line_len(line));
    buf.skip(buf.len() - keep) + seq![line]
}

proof fn lemma_total_len_cons(lines: Seq<Seq<char>>, i: int)
    requires
        0 <= i < lines.len(),
    ensures
        total_len(lines.skip(i)) == line_len(lines[i]) + total_len(lines.skip(i + 1)),
    decreases lines.len(),
{
    if i == lines.len() - 1 {
        assert(lines.skip(i).drop_last() =~= lines.skip(i + 1));
        assert(lines.skip(i).last() == lines[i]);
        assert(lines.skip(i + 1) =~= Seq::<Seq<char>>::empty());
    } else {
        let front = lines.drop_last();
        assert(lines.skip(i).drop_last() =~= front.skip(i));
        assert(lines.skip(i + 1).drop_last() =~= front.skip(i + 1));
        assert(lines.skip(i).last() == lines.last());
        assert(lines.skip(i + 1).last() == lines.last());
        lemma_total_len_cons(front, i);
        assert(front[i] == lines[i]);
    }
}

proof fn lemma_keep_count_bounds(lines: Seq<Seq<char>>, room: int)
    ensures
        0 <= keep_count(lines, room) <= lines.len(),
        total_len(lines.skip(lines.len() - keep_count(lines, room))) <= if room >= 0 {
            room
        } else {
            0
        },
    decreases lines.len(),
{
    let keep = keep_count(lines, room);
    if lines.len() == 0 {
        assert(lines.skip(0) =~= lines);
    } else if line_len(lines.last()) <= room {
        let front = lines.drop_last();
        lemma_keep_count_bounds(front, room - line_len(lines.last()));
        let kf = keep_count(front, room - line_len(lines.last()));
        let kept = lines.skip(lines.len() - keep);
        assert(kept.drop_last() =~= front.skip(front.len() - kf));
        assert(kept.last() == lines.last());
        assert(total_len(kept) == total_len(kept.drop_last()) + line_len(lines.last()));
    } else {
        assert(lines.skip(lines.len() as int) =~= Seq::<Seq<char>>::empty());
    }
}

/// Law: after any push the retained lines fit the byte budget — unless
/// the pushed line alone exceeds it, in which case the buffer holds
/// exactly that one line. The pushed line is always the newest retained
/// line.
pub proof fn lemma_push_respects_budget(buf: Seq<Seq<char>>, line: Seq<char>)
    ensures
        buffer_after_push(buf, line).len() > 0,
        buffer_after_push(buf, line).last() == line,
        line_len(line) <= MAX_CONTENT_SIZE ==> total_len(buffer_after_push(buf, line))
            <= MAX_CONTENT_SIZE,
        line_len(line) > MAX_CONTENT_SIZE ==> buffer_after_push(buf, line) == seq![line],
{
    let room = MAX_CONTENT_SIZE - line_len(line);
    lemma_keep_count_bounds(buf, room);
    let keep = keep_count(buf, room);
    let out = buffer_after_push(buf, line);
    let kept = buf.skip(buf.len() - keep);
    assert(out.drop_last() =~= kept);
    assert(total_len(out) == total_len(kept) + line_len(line));
    if line_len(line) > MAX_CONTENT_SIZE {
        assert(keep == 0) by {
            if buf.len() > 0 {
                assert(line_len(buf.last()) >= 0);
            }
        }
        assert(out =~= seq![line]);
    }
}

/// `a` is the tail end of `b`.
pub open spec fn is_suffix_of(a: Seq<Seq<char>>, b: Seq<Seq<char>>) -> bool {
    a.len() <= b.len() && a == b.skip(b.len() - a.len())
}

/// Law: pushing keeps the buffer a suffix of the push history. If the
/// retained lines were a suffix of everything pushed so far, then after
/// one more push they are a suffix of that history with the new line
/// appended — retained lines, oldest to newest, always read as a suffix
/// of the lines in push order.
pub proof fn lemma_push_preserves_suffix(
    buf: Seq<Seq<char>>,
    history: Seq<Seq<char>>,
    line: Seq<char>,
)
    requires
        is_suffix_of(buf, history),
    ensures
        is_suffix_of(buffer_after_push(buf, line), history.push(line)),
{
    let room = MAX_CONTENT_SIZE - line_len(line);
    lemma_keep_count_bounds(buf, room);
    let keep = keep_count(buf, room);
    let out = buffer_after_push(buf, line);
    let h2 = history.push(line);
    assert(out =~= h2.skip(h2.len() - out.len()));
}

/// The buffer that results from pushing `history`, oldest first, onto an
/// empty buffer.
pub open spec fn buffer_of_history(history: Seq<Seq<char>>) -> Seq<Seq<char>>
    decreases history.len(),
{
    if history.len() == 0 {
        Seq::empty()
    } else {
        buffer_after_push(buffer_of_history(history.drop_last()), history.last())
    }
}

/// Law: whatever was pushed, the retained lines are a suffix, in push
/// order, of the full pushed sequence.
pub proof fn lemma_buffer_is_history_suffix(history: Seq<Seq<char>>)
    ensures
        is_suffix_of(buffer_of_history(history), history),
    decreases history.len(),
{
    if history.len() == 0 {
        assert(buffer_of_history(history) == history.skip(0));
    } else {
        let front = history.drop_last();
        lemma_buffer_is_history_suffix(front);
        lemma_push_preserves_suffix(buffer_of_history(front), front, history.last());
        assert(front.push(history.last()) =~= history);
    }
}

/// The buffer after pushing `lines` in order, oldest first.
pub open spec fn buffer_after_pushes(buf: Seq<Seq<char>>, lines: Seq<Seq<char>>) -> Seq<
    Seq<char>,
>
    decreases lines.len(),
{
    if lines.len() == 0 {
        buf
    } else {
        buffer_after_pushes(buffer_after_push(buf, lines.first()), lines.drop_first())
    }
}

proof fn lemma_buffer_after_pushes_snoc(buf: Seq<Seq<char>>, lines: Seq<Seq<char>>, x: Seq<char>)
    ensures
        buffer_after_pushes(buf, lines.push(x)) == buffer_after_push(
            buffer_after_pushes(buf, lines),
            x,
        ),
    decreases lines.len(),
{
    if lines.len() == 0 {
        assert(lines.push(x).first() == x);
        assert(lines.push(x).drop_first() =~= Seq::<Seq<char>>::empty());
        assert(buffer_after_pushes(buf, lines) == buf);
        assert(buffer_after_pushes(buffer_after_push(buf, x), lines.push(x).drop_first())
            == buffer_after_push(buf, x));
    } else {
        let b2 = buffer_after_push(buf, lines.first());
        assert(lines.push(x).first() == lines.first());
        assert(lines.push(x).drop_first() =~= lines.drop_first().push(x));
        assert(buffer_after_pushes(buf, lines.push(x)) == buffer_after_pushes(
            b2,
            lines.drop_first().push(x),
        ));
        assert(buffer_after_pushes(buf, lines) == buffer_after_pushes(b2, lines.drop_first()));
        lemma_buffer_after_pushes_snoc(b2, lines.drop_first(), x);
    }
}

/// All lines joined in order, with no separator beyond what the lines
/// themselves contain.
pub open spec fn concat_chars(lines: Seq<Seq<char>>) -> Seq<char>
    decreases lines.len(),
{
    if lines.len() == 0 {
        Seq::empty()
    } else {
        concat_chars(lines.drop_last()) + lines.last()
    }
}

/// Console output access: the receiving end of the asynchronous line
/// channel, plus the bounded buffer of the newest lines.
pub struct ConsoleAccess {
    console_recv: std::sync::mpsc::Receiver<String>,
    cmd_buffer: Vec<String>,
}

impl View for ConsoleAccess {
    type V = Seq<Seq<char>>;

    closed spec fn view(&self) -> Seq<Seq<char>> {
        self.cmd_buffer.deep_view()
    }
}

impl ConsoleAccess {
    /// A fresh console access with an empty buffer.
    pub fn new(recv: std::sync::mpsc::Receiver<String>) -> (r: ConsoleAccess)
        ensures
            r@ == Seq::<Seq<char>>::empty(),
    {
        let r = ConsoleAccess { console_recv: recv, cmd_buffer: Vec::new() };
        proof {
            assert(r@ =~= Seq::<Seq<char>>::empty());
        }
        r
    }

    /// Relies on `std::sync::mpsc::Receiver::try_recv`: yields a line if
    /// the producer has queued one, without blocking. What arrives is up
    /// to the producer, so nothing is assumed of the result.
    #[verifier::external_body]
    pub fn next_line(&self) -> Option<String> {
        self.console_recv.try_recv().ok()
    }

    /// Push one line into the bounded buffer, re-admitting the newest
    /// retained lines while they fit the budget beside the new line and
    /// dropping all older ones.
    pub fn push_line(&mut self, line: String)
        ensures
            final(self)@ == buffer_after_push(old(self)@, line@),
            final(self)@.len() > 0 && final(self)@.last() == line@,
            line_len(line@) <= MAX_CONTENT_SIZE ==> total_len(final(self)@) <= MAX_CONTENT_SIZE,
            line_len(line@) > MAX_CONTENT_SIZE ==> final(self)@ == seq![line@],
    {
        proof {
            lemma_push_respects_budget(old(self)@, line@);
        }
        let ghost room_spec = MAX_CONTENT_SIZE - line_len(line@);
        let new_len = line.as_str().as_bytes().len();
        let n = self.cmd_buffer.len();
        let mut keep: usize = 0;
        if new_len <= MAX_CONTENT_SIZE {
            let room: usize = MAX_CONTENT_SIZE - new_len;
            let mut used: usize = 0;
            let mut stop: bool = false;
            proof {
                assert(self@.skip(n as int) =~= Seq::<Seq<char>>::empty());
                assert(self@.take(n as int) =~= self@);
            }
            while !stop && keep < n
                invariant
                    n == self.cmd_buffer.len(),
                    self@ == old(self)@,
                    keep <= n,
                    used <= room,
                    room == MAX_CONTENT_SIZE - new_len,
                    new_len == line_len(line@),
                    room_spec == room,
                    used == total_len(self@.skip(n - keep)),
                    keep_count(self@, room_spec) == keep + keep_count(
                        self@.take(n - keep),
                        room_spec - used,
                    ),
                    stop ==> keep_count(self@.take(n - keep), room_spec - used) == 0,
                decreases n - keep + (if stop { 0int } else { 1int }),
            {
                let idx = n - 1 - keep;
                let l = self.cmd_buffer[idx].as_str().as_bytes().len();
                proof {
                    assert(self@[idx as int] == self.cmd_buffer@[idx as int]@);
                    let front = self@.take(n - keep);
                    assert(front.last() == self@[idx as int]);
                    assert(front.drop_last() =~= self@.take(n - keep - 1));
                    lemma_total_len_cons(self@, idx as int);
                }
                if l <= room - used {
                    used = used + l;
                    keep = keep + 1;
                } else {
                    stop = true;
                }
            }
            proof {
                if !stop {
                    assert(self@.take(0) =~= Seq::<Seq<char>>::empty());
                }
                assert(keep_count(self@, room_spec) == keep);
            }
        } else {
            proof {
                if n > 0 {
                    assert(line_len(self@.last()) >= 0);
                }
                assert(keep_count(self@, room_spec) == 0);
            }
        }
        let drop_n = n - keep;
        let mut dropped: usize = 0;
        while dropped < drop_n
            invariant
                drop_n <= n,
                dropped <= drop_n,
                n == old(self).cmd_buffer@.len(),
                self.cmd_buffer@ == old(self).cmd_buffer@.skip(dropped as int),
            decreases drop_n - dropped,
        {
            self.cmd_buffer.remove(0);
            proof {
                assert(old(self).cmd_buffer@.skip(dropped as int).remove(0) =~= old(
                    self,
                ).cmd_buffer@.skip(dropped + 1));
            }
            dropped = dropped + 1;
        }
        self.cmd_buffer.push(line);
        proof {
            let out = buffer_after_push(old(self)@, line@);
            lemma_keep_count_bounds(old(self)@, room_spec);
            assert forall|j: int| 0 <= j < self@.len() implies self@[j] == out[j] by {
                assert(self@[j] == self.cmd_buffer@[j]@);
                if j < self@.len() - 1 {
                    assert(self.cmd_buffer@[j] == old(self).cmd_buffer@[drop_n + j]);
                    assert(old(self)@[drop_n + j] == old(self).cmd_buffer@[drop_n + j]@);
                }
            }
            assert(self@ =~= out);
        }
    }

    /// Capture the next pending console line, if any, into the buffer;
    /// hands back a copy of the captured line.
    pub fn next_line_catpure(&mut self) -> (r: Option<String>)
        ensures
            r is None ==> final(self)@ == old(self)@,
            r matches Some(l) ==> final(self)@ == buffer_after_push(old(self)@, l@),
    {
        if let Some(line) = self.next_line() {
            let out = line.clone();
            self.push_line(line);
            Some(out)
        } else {
            None
        }
    }

    /// Capture the lines currently pending on the channel into the
    /// buffer, in arrival order, stopping when the channel runs dry — or
    /// after a generous cap, so one tick does bounded work even against
    /// a producer that never pauses. What arrives is up to the producer,
    /// so the outcome is: some sequence of lines, pushed one by one.
    pub fn capture_all(&mut self)
        ensures
            exists|lines: Seq<Seq<char>>|
                final(self)@ == buffer_after_pushes(old(self)@, lines),
    {
        let ghost mut lines = Seq::<Seq<char>>::empty();
        let mut more: bool = true;
        let mut fuel: usize = MAX_CONTENT_SIZE;
        while more && fuel > 0
            invariant
                self@ == buffer_after_pushes(old(self)@, lines),
            decreases fuel,
        {
            fuel = fuel - 1;
            let got = self.next_line_catpure();
            match got {
                Some(l) => {
                    proof {
                        lemma_buffer_after_pushes_snoc(old(self)@, lines, l@);
                        lines = lines.push(l@);
                    }
                },
                None => {
                    more = false;
                },
            }
        }
    }

    /// The retained lines, oldest first, without consuming them.
    pub fn get_last_console_output(&self) -> (r: &[String])
        ensures
            r.deep_view() == self@,
    {
        self.cmd_buffer.as_slice()
    }

    /// Take every retained line out of the buffer, oldest first, leaving
    /// it empty. Unlike a push this never drops anything: the lines come
    /// back whole.
    pub fn drain_all(&mut self) -> (r: Vec<String>)
        ensures
            r.deep_view() == old(self)@,
            final(self)@ == Seq::<Seq<char>>::empty(),
    {
        let mut taken: Vec<String> = Vec::new();
        core::mem::swap(&mut self.cmd_buffer, &mut taken);
        proof {
            assert(self@ =~= Seq::<Seq<char>>::empty());
        }
        taken
    }
}

/// Join lines into one string, oldest first, with no separators.
pub fn concat_lines(lines: &[String]) -> (r: String)
    ensures
        r@ == concat_chars(lines.deep_view()),
{
    let mut r = String::new();
    let n = lines.len();
    let mut i: usize = 0;
    while i < n
        invariant
            n == lines@.len(),
            i <= n,
            r@ == concat_chars(lines.deep_view().take(i as int)),
        decreases n - i,
    {
        let l = vstd::slice::slice_index_get(lines, i);
        r.append(l.as_str());
        proof {
            let dv = lines.deep_view();
            assert(dv.take(i + 1).drop_last() =~= dv.take(i as int));
            assert(dv.take(i + 1).last() == dv[i as int]);
        }
        i = i + 1;
    }
    proof {
        assert(lines.deep_view().take(n as int) =~= lines.deep_view());
    }
    r
}

} // verus!
