//! The serial console line editor: buffered, cursor-aware input with
//! echo over a byte transport.

use vstd::prelude::*;
use crate::serial::ByteTransport;

verus! {

/// Fixed capacity of the line buffer.
pub const BUF_SIZE: usize = 16;

/// An ASCII digit.
pub open spec fn spec_is_digit(c: u8) -> bool {
    48 <= c < 58
}

/// An ASCII letter of either case.
pub open spec fn spec_is_letter(c: u8) -> bool {
    (65 <= c < 91) || (97 <= c < 123)
}

/// The punctuation the console accepts.
pub open spec fn spec_is_symbol(c: u8) -> bool {
    (32 <= c <= 47) || (91 <= c <= 96) || (123 <= c <= 126)
}

/// A byte the editor inserts into the line.
pub open spec fn is_accepted(c: u8) -> bool {
    spec_is_digit(c) || spec_is_letter(c) || spec_is_symbol(c)
}

/// A byte that ends the line: NUL, LF or CR.
pub open spec fn is_terminator(c: u8) -> bool {
    c == 0 || c == 10 || c == 13
}

pub fn is_digit(ch: u8) -> (r: bool)
    ensures
        r == spec_is_digit(ch),
{
    ch >= 48 && ch < 58
}

pub fn is_letter(ch: u8) -> (r: bool)
    ensures
        r == spec_is_letter(ch),
{
    (ch >= 65 && ch < 91) || (ch >= 97 && ch < 123)
}

pub fn is_symbol(ch: u8) -> (r: bool)
    ensures
        r == spec_is_symbol(ch),
{
    (ch >= 32 && ch <= 47) || (ch >= 91 && ch <= 96) || (ch >= 123 && ch <= 126)
}

/// The column a standard terminal shows after printing `s` starting at
/// column `col`: printable bytes advance it, backspace retreats it, the
/// cursor-right escape sequence advances it, all else leaves it.
pub open spec fn term_cols(col: int, s: Seq<u8>) -> int
    decreases s.len(),
{
    if s.len() == 0 {
        col
    } else if s.len() >= 3 && s[0] == 27 && s[1] == 91 && s[2] == 67 {
        term_cols(col + 1, s.skip(3))
    } else if 32 <= s[0] <= 126 {
        term_cols(col + 1, s.skip(1))
    } else if s[0] == 8 {
        term_cols(col - 1, s.skip(1))
    } else {
        term_cols(col, s.skip(1))
    }
}

/// Every escape byte in `s` begins a complete cursor-right sequence, so
/// `term_cols` can be computed piecewise over a concatenation.
pub open spec fn esc_ok(s: Seq<u8>) -> bool
    decreases s.len(),
{
    if s.len() == 0 {
        true
    } else if s[0] == 27 {
        s.len() >= 3 && s[1] == 91 && s[2] == 67 && esc_ok(s.skip(3))
    } else {
        esc_ok(s.skip(1))
    }
}

pub proof fn lemma_esc_ok_flat(s: Seq<u8>)
    requires
        forall|i: int| 0 <= i < s.len() ==> #[trigger] s[i] != 27,
    ensures
        esc_ok(s),
    decreases s.len(),
{
    if s.len() > 0 {
        assert(forall|i: int| 0 <= i < s.skip(1).len() ==> #[trigger] s.skip(1)[i] == s[i + 1]);
        lemma_esc_ok_flat(s.skip(1));
    }
}

pub proof fn lemma_esc_ok_append(a: Seq<u8>, b: Seq<u8>)
    requires
        esc_ok(a),
        esc_ok(b),
    ensures
        esc_ok(a + b),
    decreases a.len(),
{
    if a.len() == 0 {
        assert(a + b =~= b);
    } else if a[0] == 27 {
        assert((a + b).skip(3) =~= a.skip(3) + b);
        lemma_esc_ok_append(a.skip(3), b);
    } else {
        assert((a + b).skip(1) =~= a.skip(1) + b);
        lemma_esc_ok_append(a.skip(1), b);
    }
}

pub proof fn lemma_cols_append(col: int, a: Seq<u8>, b: Seq<u8>)
    requires
        esc_ok(a),
    ensures
        term_cols(col, a + b) == term_cols(term_cols(col, a), b),
    decreases a.len(),
{
    if a.len() == 0 {
        assert(a + b =~= b);
    } else if a[0] == 27 {
        assert((a + b).skip(3) =~= a.skip(3) + b);
        lemma_cols_append(col + 1, a.skip(3), b);
    } else {
        assert((a + b).skip(1) =~= a.skip(1) + b);
        if 32 <= a[0] <= 126 {
            lemma_cols_append(col + 1, a.skip(1), b);
        } else if a[0] == 8 {
            lemma_cols_append(col - 1, a.skip(1), b);
        } else {
            lemma_cols_append(col, a.skip(1), b);
        }
    }
}

pub proof fn lemma_cols_printables(col: int, s: Seq<u8>)
    requires
        forall|i: int| 0 <= i < s.len() ==> 32 <= #[trigger] s[i] <= 126,
    ensures
        term_cols(col, s) == col + s.len(),
        esc_ok(s),
    decreases s.len(),
{
    if s.len() > 0 {
        assert(forall|i: int| 0 <= i < s.skip(1).len() ==> #[trigger] s.skip(1)[i] == s[i + 1]);
        lemma_cols_printables(col + 1, s.skip(1));
    }
}

pub proof fn lemma_cols_backspaces(col: int, n: nat)
    ensures
        term_cols(col, Seq::new(n, |i: int| 8u8)) == col - n,
        esc_ok(Seq::new(n, |i: int| 8u8)),
    decreases n,
{
    let s = Seq::new(n, |i: int| 8u8);
    if n > 0 {
        assert(s.skip(1) =~= Seq::new((n - 1) as nat, |i: int| 8u8));
        lemma_cols_backspaces(col - 1, (n - 1) as nat);
    }
}

/// What the editor echoes when inserting: the new tail of the line from
/// the insertion point, then backspaces returning to just after it.
pub open spec fn echo_insert(tail: Seq<u8>) -> Seq<u8> {
    tail + Seq::new((tail.len() - 1) as nat, |i: int| 8u8)
}

/// What the editor echoes when removing: one backspace, the shifted tail
/// with its trailing blank, then backspaces returning to the removal
/// point.
pub open spec fn echo_remove(tail: Seq<u8>) -> Seq<u8> {
    seq![8u8] + tail + Seq::new(tail.len() as nat, |i: int| 8u8)
}

/// Inserting one character moves the terminal column right by one.
pub proof fn lemma_echo_insert_cols(col: int, tail: Seq<u8>)
    requires
        tail.len() >= 1,
        forall|i: int| 0 <= i < tail.len() ==> 32 <= #[trigger] tail[i] <= 126,
    ensures
        term_cols(col, echo_insert(tail)) == col + 1,
        esc_ok(echo_insert(tail)),
{
    let bs = Seq::new((tail.len() - 1) as nat, |i: int| 8u8);
    lemma_cols_printables(col, tail);
    lemma_cols_backspaces(col + tail.len(), (tail.len() - 1) as nat);
    lemma_cols_append(col, tail, bs);
    lemma_esc_ok_append(tail, bs);
}

/// Removing one character moves the terminal column left by one.
pub proof fn lemma_echo_remove_cols(col: int, tail: Seq<u8>)
    requires
        forall|i: int| 0 <= i < tail.len() ==> 32 <= #[trigger] tail[i] <= 126,
    ensures
        term_cols(col, echo_remove(tail)) == col - 1,
        esc_ok(echo_remove(tail)),
{
    let bs = Seq::new(tail.len() as nat, |i: int| 8u8);
    let head = seq![8u8];
    lemma_cols_printables(col - 1, tail);
    lemma_cols_backspaces(col - 1 + tail.len(), tail.len() as nat);
    lemma_cols_append(col - 1, tail, bs);
    lemma_esc_ok_append(tail, bs);
    assert((head + (tail + bs)).skip(1) =~= tail + bs);
    lemma_esc_ok_flat(head);
    lemma_esc_ok_append(head, tail + bs);
    assert(echo_remove(tail) =~= head + (tail + bs));
}

/// Where a run of the editor over some input bytes stands: still
/// collecting, or finished by a terminator (`accepted` true for a
/// non-empty line), an overflowing insertion, or a truncated escape
/// sequence (`accepted` false).
pub enum RunResult {
    Pending { line: Seq<u8>, cursor: int },
    Done { line: Seq<u8>, cursor: int, accepted: bool },
}

/// The editor's state machine over an input byte sequence, starting from
/// `line` and `cursor`: terminators finish the line, accepted bytes
/// insert at the cursor, backspace removes left of it, complete escape
/// sequences move it, everything else is ignored.
pub open spec fn console_run(line: Seq<u8>, cursor: int, input: Seq<u8>) -> RunResult
    decreases input.len(),
{
    if input.len() == 0 {
        RunResult::Pending { line, cursor }
    } else {
        let ch = input[0];
        if is_terminator(ch) {
            RunResult::Done { line, cursor, accepted: line.len() > 0 }
        } else if is_accepted(ch) {
            if line.len() >= BUF_SIZE {
                RunResult::Done { line, cursor, accepted: false }
            } else {
                console_run(
                    line.take(cursor) + seq![ch] + line.skip(cursor),
                    cursor + 1,
                    input.skip(1),
                )
            }
        } else if ch == 8 {
            if cursor > 0 {
                console_run(line.take(cursor - 1) + line.skip(cursor), cursor - 1, input.skip(1))
            } else {
                console_run(line, cursor, input.skip(1))
            }
        } else if ch == 27 {
            if input.len() >= 3 {
                if input[1] == 91 && input[2] == 67 && cursor < line.len() {
                    console_run(line, cursor + 1, input.skip(3))
                } else if input[1] == 91 && input[2] == 68 && cursor > 0 {
                    console_run(line, cursor - 1, input.skip(3))
                } else {
                    console_run(line, cursor, input.skip(3))
                }
            } else {
                RunResult::Done { line, cursor, accepted: false }
            }
        } else {
            console_run(line, cursor, input.skip(1))
        }
    }
}

/// What remains of the input after the run of `console_run` ends: the
/// bytes past the terminator or the overflowing byte; nothing when the
/// input runs out, completely or inside an escape sequence.
pub open spec fn run_rest(line: Seq<u8>, cursor: int, input: Seq<u8>) -> Seq<u8>
    decreases input.len(),
{
    if input.len() == 0 {
        Seq::empty()
    } else {
        let ch = input[0];
        if is_terminator(ch) {
            input.skip(1)
        } else if is_accepted(ch) {
            if line.len() >= BUF_SIZE {
                input.skip(1)
            } else {
                run_rest(line.take(cursor) + seq![ch] + line.skip(cursor), cursor + 1, input.skip(1))
            }
        } else if ch == 8 {
            if cursor > 0 {
                run_rest(line.take(cursor - 1) + line.skip(cursor), cursor - 1, input.skip(1))
            } else {
                run_rest(line, cursor, input.skip(1))
            }
        } else if ch == 27 {
            if input.len() >= 3 {
                if input[1] == 91 && input[2] == 67 && cursor < line.len() {
                    run_rest(line, cursor + 1, input.skip(3))
                } else if input[1] == 91 && input[2] == 68 && cursor > 0 {
                    run_rest(line, cursor - 1, input.skip(3))
                } else {
                    run_rest(line, cursor, input.skip(3))
                }
            } else {
                Seq::empty()
            }
        } else {
            run_rest(line, cursor, input.skip(1))
        }
    }
}

/// Every byte the editor echoes while consuming `input` from the state
/// `(line, cursor)`: the per-edit echoes of accepted bytes, removals and
/// cursor moves, and the final LF of a terminator.
pub open spec fn console_echo(line: Seq<u8>, cursor: int, input: Seq<u8>) -> Seq<u8>
    decreases input.len(),
{
    if input.len() == 0 {
        Seq::empty()
    } else {
        let ch = input[0];
        if is_terminator(ch) {
            seq![10u8]
        } else if is_accepted(ch) {
            if line.len() >= BUF_SIZE {
                Seq::empty()
            } else {
                echo_insert(seq![ch] + line.skip(cursor)) + console_echo(
                    line.take(cursor) + seq![ch] + line.skip(cursor),
                    cursor + 1,
                    input.skip(1),
                )
            }
        } else if ch == 8 {
            if cursor > 0 {
                echo_remove(line.skip(cursor) + seq![32u8]) + console_echo(
                    line.take(cursor - 1) + line.skip(cursor),
                    cursor - 1,
                    input.skip(1),
                )
            } else {
                console_echo(line, cursor, input.skip(1))
            }
        } else if ch == 27 {
            if input.len() >= 3 {
                if input[1] == 91 && input[2] == 67 && cursor < line.len() {
                    seq![27u8, 91u8, 67u8] + console_echo(line, cursor + 1, input.skip(3))
                } else if input[1] == 91 && input[2] == 68 && cursor > 0 {
                    seq![8u8] + console_echo(line, cursor - 1, input.skip(3))
                } else {
                    console_echo(line, cursor, input.skip(3))
                }
            } else {
                Seq::empty()
            }
        } else {
            console_echo(line, cursor, input.skip(1))
        }
    }
}

/// The line editor: a fixed 16-byte buffer, a count of live bytes and an
/// insertion cursor.
pub struct Console {
    buf: Vec<u8>,
    len: usize,
    cursor: usize,
}

impl Console {
    /// The console state invariant: the cursor sits within the line, the
    /// line within the buffer, and the line holds printable bytes only.
    pub closed spec fn wf(&self) -> bool {
        &&& self.buf@.len() == BUF_SIZE
        &&& 0 <= self.cursor <= self.len <= BUF_SIZE
        &&& forall|k: int| 0 <= k < self.len ==> 32 <= #[trigger] self.buf@[k] <= 126
    }

    pub closed spec fn spec_len(&self) -> int {
        self.len as int
    }

    pub closed spec fn spec_cursor(&self) -> int {
        self.cursor as int
    }

    /// The live content of the line.
    pub closed spec fn line(&self) -> Seq<u8> {
        self.buf@.take(self.len as int)
    }

    pub fn new() -> (r: Console)
        ensures
            r.wf(),
            r.spec_len() == 0,
            r.spec_cursor() == 0,
    {
        let mut buf: Vec<u8> = Vec::new();
        let mut k: usize = 0;
        while k < BUF_SIZE
            invariant
                k <= BUF_SIZE,
                buf@.len() == k,
            decreases BUF_SIZE - k,
        {
            buf.push(0);
            k = k + 1;
        }
        Console { buf, len: 0, cursor: 0 }
    }

    /// Shifts the tail `[cursor, len)` one place right to open the
    /// insertion slot.
    fn adjust_append(&mut self)
        requires
            old(self).wf(),
            old(self).spec_len() < BUF_SIZE,
        ensures
            final(self).buf@.len() == BUF_SIZE,
            final(self).len == old(self).len,
            final(self).cursor == old(self).cursor,
            forall|m: int| 0 <= m <= old(self).spec_cursor() ==> final(self).buf@[m]
                == old(self).buf@[m],
            forall|m: int| old(self).spec_cursor() < m <= old(self).spec_len()
                ==> final(self).buf@[m] == old(self).buf@[m - 1],
    {
        let mut k: usize = self.len;
        while k > self.cursor
            invariant
                old(self).wf(),
                self.cursor == old(self).cursor,
                self.len == old(self).len,
                self.buf@.len() == BUF_SIZE,
                old(self).spec_cursor() <= k <= old(self).spec_len() < BUF_SIZE,
                forall|m: int| 0 <= m <= k ==> self.buf@[m] == old(self).buf@[m],
                forall|m: int| k < m <= old(self).spec_len() ==> self.buf@[m]
                    == old(self).buf@[m - 1],
            decreases k,
        {
            let v = self.buf[k - 1];
            self.buf[k] = v;
            k = k - 1;
        }
    }

    /// Shifts the tail `[cursor, len)` one place left over the removed
    /// byte and blanks the vacated last position.
    fn adjust_remove(&mut self)
        requires
            old(self).wf(),
            old(self).spec_cursor() > 0,
        ensures
            final(self).buf@.len() == BUF_SIZE,
            final(self).len == old(self).len,
            final(self).cursor == old(self).cursor,
            forall|m: int| 0 <= m < old(self).spec_cursor() - 1 ==> final(self).buf@[m]
                == old(self).buf@[m],
            forall|m: int| old(self).spec_cursor() - 1 <= m < old(self).spec_len() - 1
                ==> final(self).buf@[m] == old(self).buf@[m + 1],
            final(self).buf@[old(self).spec_len() - 1] == 32u8,
            forall|m: int| old(self).spec_len() <= m < BUF_SIZE ==> final(self).buf@[m]
                == old(self).buf@[m],
    {
        let mut k: usize = self.cursor;
        while k < self.len
            invariant
                old(self).wf(),
                self.cursor == old(self).cursor,
                self.len == old(self).len,
                self.buf@.len() == BUF_SIZE,
                0 < old(self).spec_cursor() <= k <= old(self).spec_len() <= BUF_SIZE,
                forall|m: int| 0 <= m < old(self).spec_cursor() - 1 ==> self.buf@[m]
                    == old(self).buf@[m],
                forall|m: int| old(self).spec_cursor() - 1 <= m < k - 1 ==> self.buf@[m]
                    == old(self).buf@[m + 1],
                forall|m: int| k - 1 <= m < BUF_SIZE ==> self.buf@[m] == old(self).buf@[m],
            decreases self.len - k,
        {
            let v = self.buf[k];
            self.buf[k - 1] = v;
            k = k + 1;
        }
        if self.len > 0 {
            let last = self.len - 1;
            self.buf[last] = 32;
        }
    }

    /// Echoes the tail of the line from the cursor on.
    fn re_print<T: ByteTransport>(&self, t: &mut T)
        requires
            self.wf(),
        ensures
            final(t).incoming() == old(t).incoming(),
            final(t).emitted() == old(t).emitted() + self.buf@.subrange(
                self.spec_cursor(),
                self.spec_len(),
            ),
    {
        let mut k: usize = self.cursor;
        while k < self.len
            invariant
                self.wf(),
                self.spec_cursor() <= k <= self.spec_len(),
                t.incoming() == old(t).incoming(),
                t.emitted() == old(t).emitted() + self.buf@.subrange(self.spec_cursor(), k as int),
            decreases self.len - k,
        {
            let b = self.buf[k];
            t.put_byte(b);
            proof {
                assert(t.emitted() =~= old(t).emitted() + self.buf@.subrange(
                    self.spec_cursor(),
                    k + 1,
                ));
            }
            k = k + 1;
        }
    }

    /// Emits `n` backspaces.
    fn backspaces<T: ByteTransport>(&self, t: &mut T, n: usize)
        ensures
            final(t).incoming() == old(t).incoming(),
            final(t).emitted() == old(t).emitted() + Seq::new(n as nat, |i: int| 8u8),
    {
        let mut k: usize = 0;
        while k < n
            invariant
                k <= n,
                t.incoming() == old(t).incoming(),
                t.emitted() == old(t).emitted() + Seq::new(k as nat, |i: int| 8u8),
            decreases n - k,
        {
            t.put_byte(8);
            proof {
                assert(t.emitted() =~= old(t).emitted() + Seq::new((k + 1) as nat, |i: int| 8u8));
            }
            k = k + 1;
        }
    }

    /// Inserts an accepted byte at the cursor and echoes the edit.
    fn insert_char<T: ByteTransport>(&mut self, ch: u8, t: &mut T)
        requires
            old(self).wf(),
            old(self).spec_len() < BUF_SIZE,
            is_accepted(ch),
        ensures
            final(self).wf(),
            final(self).spec_len() == old(self).spec_len() + 1,
            final(self).spec_cursor() == old(self).spec_cursor() + 1,
            final(self).line() == old(self).line().take(old(self).spec_cursor()) + seq![ch]
                + old(self).line().skip(old(self).spec_cursor()),
            final(t).incoming() == old(t).incoming(),
            final(t).emitted() == old(t).emitted() + echo_insert(
                seq![ch] + old(self).buf@.subrange(old(self).spec_cursor(), old(self).spec_len()),
            ),
    {
        let ghost tail = seq![ch] + old(self).buf@.subrange(
            old(self).spec_cursor(),
            old(self).spec_len(),
        );
        self.adjust_append();
        let cur = self.cursor;
        self.buf[cur] = ch;
        self.len = self.len + 1;
        self.re_print(t);
        proof {
            assert(self.buf@.subrange(self.spec_cursor(), self.spec_len()) =~= tail);
        }
        self.cursor = self.cursor + 1;
        let n = self.len - self.cursor;
        self.backspaces(t, n);
        proof {
            assert(final(t).emitted() =~= old(t).emitted() + echo_insert(tail));
            assert(final(self).line() =~= old(self).line().take(old(self).spec_cursor())
                + seq![ch] + old(self).line().skip(old(self).spec_cursor()));
        }
    }

    /// Removes the byte left of the cursor and echoes the edit.
    fn remove_char<T: ByteTransport>(&mut self, t: &mut T)
        requires
            old(self).wf(),
            old(self).spec_cursor() > 0,
        ensures
            final(self).wf(),
            final(self).spec_len() == old(self).spec_len() - 1,
            final(self).spec_cursor() == old(self).spec_cursor() - 1,
            final(self).line() == old(self).line().take(old(self).spec_cursor() - 1)
                + old(self).line().skip(old(self).spec_cursor()),
            final(t).incoming() == old(t).incoming(),
            final(t).emitted() == old(t).emitted() + echo_remove(
                old(self).buf@.subrange(old(self).spec_cursor(), old(self).spec_len()) + seq![32u8],
            ),
    {
        let ghost tail = old(self).buf@.subrange(old(self).spec_cursor(), old(self).spec_len())
            + seq![32u8];
        self.adjust_remove();
        self.cursor = self.cursor - 1;
        t.put_byte(8);
        self.re_print(t);
        proof {
            assert(self.buf@.subrange(self.spec_cursor(), self.spec_len()) =~= tail);
        }
        let n = self.len - self.cursor;
        self.backspaces(t, n);
        self.len = self.len - 1;
        proof {
            assert(final(t).emitted() =~= old(t).emitted() + echo_remove(tail));
            assert(final(self).line() =~= old(self).line().take(old(self).spec_cursor() - 1)
                + old(self).line().skip(old(self).spec_cursor()));
        }
    }

    /// Handles a byte outside the printable, backspace and terminator
    /// classes. An escape byte starts a three-byte sequence whose last
    /// byte may move the cursor right (with the sequence re-emitted for
    /// the terminal) or left (with one backspace); everything else is
    /// silently ignored. A stream that ends inside the sequence leaves
    /// the state untouched.
    pub fn handle_transfer_char<T: ByteTransport>(&mut self, ch: u8, t: &mut T)
        requires
            old(self).wf(),
        ensures
            final(self).wf(),
            final(self).spec_len() == old(self).spec_len(),
            final(self).line() == old(self).line(),
            ch != 27 ==> *final(self) == *old(self) && final(t).incoming() == old(t).incoming()
                && final(t).emitted() == old(t).emitted(),
            ch == 27 ==> ({
                let inc = old(t).incoming();
                if inc.len() >= 2 {
                    final(t).incoming() == inc.skip(2) && (if inc[0] == 91 && inc[1] == 67
                        && old(self).spec_cursor() < old(self).spec_len() {
                        final(self).spec_cursor() == old(self).spec_cursor() + 1
                            && final(t).emitted() == old(t).emitted() + seq![27u8, 91u8, 67u8]
                    } else if inc[0] == 91 && inc[1] == 68 && old(self).spec_cursor() > 0 {
                        final(self).spec_cursor() == old(self).spec_cursor() - 1
                            && final(t).emitted() == old(t).emitted() + seq![8u8]
                    } else {
                        final(self).spec_cursor() == old(self).spec_cursor() && final(t).emitted()
                            == old(t).emitted()
                    })
                } else {
                    final(t).incoming().len() == 0 && final(self).spec_cursor()
                        == old(self).spec_cursor() && final(t).emitted() == old(t).emitted()
                }
            }),
    {
        if ch == 27 {
            let c1 = match t.get_byte() {
                Some(c) => c,
                None => {
                    return ;
                },
            };
            let c2 = match t.get_byte() {
                Some(c) => c,
                None => {
                    return ;
                },
            };
            proof {
                assert(old(t).incoming().skip(1).skip(1) =~= old(t).incoming().skip(2));
            }
            if c1 == 91 {
                if c2 == 67 {
                    if self.cursor < self.len {
                        self.cursor = self.cursor + 1;
                        t.put_byte(27);
                        t.put_byte(91);
                        t.put_byte(67);
                        proof {
                            assert(t.emitted() =~= old(t).emitted() + seq![27u8, 91u8, 67u8]);
                        }
                    }
                }
                if c2 == 68 {
                    if self.cursor > 0 {
                        self.cursor = self.cursor - 1;
                        t.put_byte(8);
                        proof {
                            assert(t.emitted() =~= old(t).emitted() + seq![8u8]);
                        }
                    }
                }
            }
        }
    }

    /// A copy of the live line.
    fn take_line(&self) -> (v: Vec<u8>)
        requires
            self.wf(),
        ensures
            v@ == self.line(),
    {
        let mut v: Vec<u8> = Vec::new();
        let mut k: usize = 0;
        while k < self.len
            invariant
                self.wf(),
                k <= self.spec_len(),
                v@.len() == k,
                forall|m: int| 0 <= m < k ==> v@[m] == self.buf@[m],
            decreases self.len - k,
        {
            let b = self.buf[k];
            v.push(b);
            k = k + 1;
        }
        proof {
            assert(v@ =~= self.line());
        }
        v
    }

    /// How many bytes the line currently holds; after `wait_for_input`
    /// returns `None` with input remaining, a full buffer tells an
    /// overflow from an empty line.
    pub fn line_len(&self) -> (r: usize)
        ensures
            r == self.spec_len(),
    {
        self.len
    }

    /// Prompts and edits one line of input.
    ///
    /// The entire call is pinned by the editor's state machine over the
    /// transport's incoming bytes: the return value, the final line and
    /// cursor, the input left unconsumed, and every echoed byte — the
    /// `>> ` prompt followed by `console_echo` of the consumed input.
    /// A terminated non-empty line comes back as `Some`; an empty line,
    /// a printable byte arriving with the buffer full, and an input
    /// stream that ends all yield `None`. Whatever the input, the
    /// editing echo leaves the terminal's visible cursor at column
    /// `cursor` plus the prompt width.
    pub fn wait_for_input<T: ByteTransport>(&mut self, t: &mut T) -> (r: Option<Vec<u8>>)
        requires
            old(self).wf(),
        ensures
            final(self).wf(),
            final(self).line().len() == final(self).spec_len(),
            final(t).incoming().len() <= old(t).incoming().len(),
            final(t).incoming().len() < old(t).incoming().len() || final(t).incoming().len()
                == 0,
            r is Some ==> final(t).incoming().len() < old(t).incoming().len(),
            final(t).emitted() == old(t).emitted() + seq![62u8, 62u8, 32u8] + console_echo(
                Seq::empty(),
                0,
                old(t).incoming(),
            ),
            esc_ok(final(t).emitted().skip(old(t).emitted().len() as int)),
            term_cols(0, final(t).emitted().skip(old(t).emitted().len() as int))
                == final(self).spec_cursor() + 3,
            match console_run(Seq::empty(), 0, old(t).incoming()) {
                RunResult::Pending { line, cursor } => r is None && final(t).incoming().len() == 0
                    && final(self).line() == line && final(self).spec_cursor() == cursor,
                RunResult::Done { line, cursor, accepted } => final(t).incoming() == run_rest(
                    Seq::empty(),
                    0,
                    old(t).incoming(),
                ) && final(self).line() == line && final(self).spec_cursor() == cursor && (match r {
                    Some(v) => accepted && v@ == line,
                    None => !accepted,
                }),
            },
            match r {
                Some(v) => v@ == final(self).line() && 1 <= v@.len() <= BUF_SIZE,
                None => true,
            },
    {
        t.put_byte(62);
        t.put_byte(62);
        t.put_byte(32);
        self.len = 0;
        self.cursor = 0;
        let ghost mut edits: Seq<u8> = Seq::empty();
        proof {
            let delta0 = t.emitted().skip(old(t).emitted().len() as int);
            assert(delta0 =~= seq![62u8, 62u8, 32u8]);
            lemma_cols_printables(0, delta0);
            assert(t.emitted() =~= old(t).emitted() + seq![62u8, 62u8, 32u8] + edits);
            assert(self.line() =~= Seq::<u8>::empty());
        }
        loop
            invariant
                self.wf(),
                t.incoming().len() <= old(t).incoming().len(),
                t.emitted() == old(t).emitted() + seq![62u8, 62u8, 32u8] + edits,
                esc_ok(t.emitted().skip(old(t).emitted().len() as int)),
                term_cols(0, t.emitted().skip(old(t).emitted().len() as int))
                    == self.spec_cursor() + 3,
                console_echo(Seq::empty(), 0, old(t).incoming()) == edits + console_echo(
                    self.line(),
                    self.spec_cursor(),
                    t.incoming(),
                ),
                run_rest(Seq::empty(), 0, old(t).incoming()) == run_rest(
                    self.line(),
                    self.spec_cursor(),
                    t.incoming(),
                ),
                console_run(Seq::empty(), 0, old(t).incoming()) == console_run(
                    self.line(),
                    self.spec_cursor(),
                    t.incoming(),
                ) || (t.incoming().len() == 0 && console_run(Seq::empty(), 0, old(t).incoming())
                    == (RunResult::Done {
                    line: self.line(),
                    cursor: self.spec_cursor(),
                    accepted: false,
                })),
            decreases t.incoming().len(),
        {
            let ghost inc0 = t.incoming();
            let ghost line0 = self.line();
            let ghost cur0 = self.spec_cursor();
            if let Some(ch) = t.get_byte() {
                let ghost delta = t.emitted().skip(old(t).emitted().len() as int);
                proof {
                    assert(inc0 =~= seq![ch] + t.incoming());
                    assert(console_run(Seq::empty(), 0, old(t).incoming()) == console_run(
                        line0,
                        cur0,
                        inc0,
                    ));
                }
                if ch == 0 || ch == 10 || ch == 13 {
                    t.put_byte(10);
                    proof {
                        lemma_cols_append(0, delta, seq![10u8]);
                        lemma_esc_ok_flat(seq![10u8]);
                        lemma_esc_ok_append(delta, seq![10u8]);
                        assert(t.emitted().skip(old(t).emitted().len() as int) =~= delta + seq![
                            10u8,
                        ]);
                        assert(seq![10u8].skip(1) =~= Seq::<u8>::empty());
                        assert(term_cols(self.spec_cursor() + 3, Seq::<u8>::empty())
                            == self.spec_cursor() + 3);
                        assert(term_cols(self.spec_cursor() + 3, seq![10u8])
                            == self.spec_cursor() + 3);
                        assert(console_run(line0, cur0, inc0) == (RunResult::Done {
                            line: line0,
                            cursor: cur0,
                            accepted: line0.len() > 0,
                        }));
                        assert(run_rest(line0, cur0, inc0) =~= t.incoming());
                        assert(console_echo(line0, cur0, inc0) =~= seq![10u8]);
                        edits = edits + seq![10u8];
                        assert(t.emitted() =~= old(t).emitted() + seq![62u8, 62u8, 32u8] + edits);
                        assert(console_echo(Seq::empty(), 0, old(t).incoming()) =~= edits);
                    }
                    if self.len == 0 {
                        proof {
                            assert(self.line() =~= Seq::<u8>::empty());
                        }
                        return None;
                    } else {
                        let line = self.take_line();
                        return Some(line);
                    }
                } else if is_digit(ch) || is_letter(ch) || is_symbol(ch) {
                    if self.len == BUF_SIZE {
                        proof {
                            assert(console_run(line0, cur0, inc0) == (RunResult::Done {
                                line: line0,
                                cursor: cur0,
                                accepted: false,
                            }));
                            assert(run_rest(line0, cur0, inc0) =~= t.incoming());
                            assert(console_echo(line0, cur0, inc0) =~= Seq::<u8>::empty());
                            assert(console_echo(Seq::empty(), 0, old(t).incoming()) =~= edits);
                        }
                        return None;
                    }
                    let ghost tail = seq![ch] + self.buf@.subrange(
                        self.spec_cursor(),
                        self.spec_len(),
                    );
                    let ghost col = self.spec_cursor() + 3;
                    self.insert_char(ch, t);
                    proof {
                        assert(tail =~= seq![ch] + line0.skip(cur0));
                        lemma_echo_insert_cols(col, tail);
                        lemma_cols_append(0, delta, echo_insert(tail));
                        lemma_esc_ok_append(delta, echo_insert(tail));
                        assert(t.emitted().skip(old(t).emitted().len() as int) =~= delta
                            + echo_insert(tail));
                        assert(console_run(line0, cur0, inc0) == console_run(
                            self.line(),
                            self.spec_cursor(),
                            t.incoming(),
                        ));
                        assert(run_rest(line0, cur0, inc0) == run_rest(
                            self.line(),
                            self.spec_cursor(),
                            t.incoming(),
                        ));
                        assert(console_echo(line0, cur0, inc0) == echo_insert(tail)
                            + console_echo(self.line(), self.spec_cursor(), t.incoming()));
                        edits = edits + echo_insert(tail);
                        assert(t.emitted() =~= old(t).emitted() + seq![62u8, 62u8, 32u8] + edits);
                        assert(console_echo(Seq::empty(), 0, old(t).incoming()) =~= edits
                            + console_echo(self.line(), self.spec_cursor(), t.incoming()));
                    }
                } else if ch == 8 && self.len > 0 && self.cursor > 0 {
                    let ghost tail = self.buf@.subrange(self.spec_cursor(), self.spec_len())
                        + seq![32u8];
                    let ghost col = self.spec_cursor() + 3;
                    self.remove_char(t);
                    proof {
                        assert(tail =~= line0.skip(cur0) + seq![32u8]);
                        lemma_echo_remove_cols(col, tail);
                        lemma_cols_append(0, delta, echo_remove(tail));
                        lemma_esc_ok_append(delta, echo_remove(tail));
                        assert(t.emitted().skip(old(t).emitted().len() as int) =~= delta
                            + echo_remove(tail));
                        assert(console_run(line0, cur0, inc0) == console_run(
                            self.line(),
                            self.spec_cursor(),
                            t.incoming(),
                        ));
                        assert(run_rest(line0, cur0, inc0) == run_rest(
                            self.line(),
                            self.spec_cursor(),
                            t.incoming(),
                        ));
                        assert(console_echo(line0, cur0, inc0) == echo_remove(tail)
                            + console_echo(self.line(), self.spec_cursor(), t.incoming()));
                        edits = edits + echo_remove(tail);
                        assert(t.emitted() =~= old(t).emitted() + seq![62u8, 62u8, 32u8] + edits);
                        assert(console_echo(Seq::empty(), 0, old(t).incoming()) =~= edits
                            + console_echo(self.line(), self.spec_cursor(), t.incoming()));
                    }
                } else {
                    let ghost pre_t = *t;
                    self.handle_transfer_char(ch, t);
                    proof {
                        if ch == 27 && pre_t.incoming().len() >= 2 {
                            let c1 = pre_t.incoming()[0];
                            let c2 = pre_t.incoming()[1];
                            assert(inc0.len() >= 3);
                            assert(inc0[1] == c1 && inc0[2] == c2);
                            assert(inc0.skip(3) =~= t.incoming());
                            assert(esc_ok(Seq::<u8>::empty()));
                            if c1 == 91 && c2 == 67 && cur0 < line0.len() {
                                let arrow = seq![27u8, 91u8, 67u8];
                                assert(arrow.skip(3) =~= Seq::<u8>::empty());
                                assert(esc_ok(arrow));
                                assert(term_cols(cur0 + 4, Seq::<u8>::empty()) == cur0 + 4);
                                assert(term_cols(cur0 + 3, arrow) == cur0 + 4);
                                lemma_cols_append(0, delta, arrow);
                                lemma_esc_ok_append(delta, arrow);
                                assert(t.emitted().skip(old(t).emitted().len() as int) =~= delta
                                    + arrow);
                                assert(console_echo(line0, cur0, inc0) == arrow + console_echo(
                                    self.line(),
                                    self.spec_cursor(),
                                    t.incoming(),
                                ));
                                edits = edits + arrow;
                            } else if c1 == 91 && c2 == 68 && cur0 > 0 {
                                let bs = seq![8u8];
                                assert(bs.skip(1) =~= Seq::<u8>::empty());
                                lemma_esc_ok_flat(bs);
                                assert(term_cols(cur0 + 2, Seq::<u8>::empty()) == cur0 + 2);
                                assert(term_cols(cur0 + 3, bs) == cur0 + 2);
                                lemma_cols_append(0, delta, bs);
                                lemma_esc_ok_append(delta, bs);
                                assert(t.emitted().skip(old(t).emitted().len() as int) =~= delta
                                    + bs);
                                assert(console_echo(line0, cur0, inc0) == bs + console_echo(
                                    self.line(),
                                    self.spec_cursor(),
                                    t.incoming(),
                                ));
                                edits = edits + bs;
                            } else {
                                assert(t.emitted().skip(old(t).emitted().len() as int) =~= delta);
                                assert(console_echo(line0, cur0, inc0) == console_echo(
                                    self.line(),
                                    self.spec_cursor(),
                                    t.incoming(),
                                ));
                            }
                            assert(console_run(line0, cur0, inc0) == console_run(
                                self.line(),
                                self.spec_cursor(),
                                t.incoming(),
                            ));
                            assert(run_rest(line0, cur0, inc0) == run_rest(
                                self.line(),
                                self.spec_cursor(),
                                t.incoming(),
                            ));
                            assert(t.emitted() =~= old(t).emitted() + seq![62u8, 62u8, 32u8]
                                + edits);
                            assert(console_echo(Seq::empty(), 0, old(t).incoming()) =~= edits
                                + console_echo(self.line(), self.spec_cursor(), t.incoming()));
                        } else if ch == 27 {
                            // The stream ended inside the escape sequence.
                            assert(t.emitted() == pre_t.emitted());
                            assert(t.emitted().skip(old(t).emitted().len() as int) =~= delta);
                            assert(t.incoming().len() == 0);
                            assert(inc0.len() < 3);
                            assert(console_run(line0, cur0, inc0) == (RunResult::Done {
                                line: line0,
                                cursor: cur0,
                                accepted: false,
                            }));
                            assert(run_rest(line0, cur0, inc0) =~= Seq::<u8>::empty());
                            assert(run_rest(self.line(), self.spec_cursor(), t.incoming())
                                =~= Seq::<u8>::empty());
                            assert(console_echo(line0, cur0, inc0) =~= Seq::<u8>::empty());
                            assert(console_echo(self.line(), self.spec_cursor(), t.incoming())
                                =~= Seq::<u8>::empty());
                        } else {
                            assert(t.emitted() == pre_t.emitted());
                            assert(t.emitted().skip(old(t).emitted().len() as int) =~= delta);
                            assert(console_run(line0, cur0, inc0) == console_run(
                                self.line(),
                                self.spec_cursor(),
                                t.incoming(),
                            ));
                            assert(run_rest(line0, cur0, inc0) == run_rest(
                                self.line(),
                                self.spec_cursor(),
                                t.incoming(),
                            ));
                            assert(console_echo(line0, cur0, inc0) == console_echo(
                                self.line(),
                                self.spec_cursor(),
                                t.incoming(),
                            ));
                        }
                    }
                }
            } else {
                proof {
                    assert(inc0.len() == 0);
                    assert(inc0 =~= Seq::<u8>::empty());
                    assert(console_echo(line0, cur0, inc0) =~= Seq::<u8>::empty());
                    assert(console_echo(Seq::empty(), 0, old(t).incoming()) =~= edits);
                    assert(run_rest(line0, cur0, inc0) =~= Seq::<u8>::empty());
                    if console_run(Seq::empty(), 0, old(t).incoming()) == console_run(
                        line0,
                        cur0,
                        inc0,
                    ) {
                        assert(console_run(line0, cur0, inc0) == (RunResult::Pending {
                            line: line0,
                            cursor: cur0,
                        }));
                    } else {
                        assert(t.incoming() =~= run_rest(Seq::empty(), 0, old(t).incoming()));
                    }
                }
                return None;
            }
        }
    }
}

} // verus!
