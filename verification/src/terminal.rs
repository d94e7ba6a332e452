//! A virtual terminal: an editable line-oriented prompt over an
//! append-only display buffer. Typed input can be edited until it is
//! committed with a newline; only committed bytes ever become input
//! to the interpreter.

use vstd::prelude::*;

use crate::commands::Key;
use crate::io::{read_number_consumed, read_number_from_deque, read_number_value, IO};

verus! {

/// The positions of every newline byte in `s`, in increasing order.
pub open spec fn newline_positions(s: Seq<u8>) -> Seq<int>
    decreases s.len(),
{
    if s.len() == 0 {
        Seq::empty()
    } else if s.last() == 10 {
        newline_positions(s.drop_last()).push(s.len() - 1)
    } else {
        newline_positions(s.drop_last())
    }
}

/// Newline positions are strictly increasing and lie inside the
/// buffer.
pub proof fn lemma_newline_positions_sorted(s: Seq<u8>)
    ensures
        newline_positions(s).len() <= s.len(),
        forall|i: int|
            0 <= i < newline_positions(s).len() ==> 0 <= #[trigger] newline_positions(s)[i]
                < s.len(),
        forall|i: int, j: int|
            0 <= i < j < newline_positions(s).len() ==> newline_positions(s)[i]
                < newline_positions(s)[j],
    decreases s.len(),
{
    if s.len() > 0 {
        lemma_newline_positions_sorted(s.drop_last());
        let pre = newline_positions(s.drop_last());
        let nl = newline_positions(s);
        if s.last() == 10 {
            assert(nl == pre.push(s.len() - 1));
            assert forall|i: int| 0 <= i < nl.len() implies 0 <= #[trigger] nl[i] < s.len() by {
                if i < pre.len() {
                    assert(nl[i] == pre[i]);
                }
            }
            assert forall|i: int, j: int| 0 <= i < j < nl.len() implies nl[i] < nl[j] by {
                if j < pre.len() {
                    assert(nl[i] == pre[i] && nl[j] == pre[j]);
                } else {
                    assert(nl[j] == s.len() - 1);
                    assert(nl[i] == pre[i]);
                }
            }
        }
    }
}

/// Simulates the behaviour of a terminal prompt: program output and
/// committed input gather in the display, while the uncommitted line
/// stays editable under a cursor.
pub struct VirtualTerminal {
    display: Vec<u8>,
    newline_indices: Vec<usize>,
    available_input: std::collections::VecDeque<u8>,
    uncommitted: Vec<u8>,
    cursor: usize,
    dirty: bool,
}

impl VirtualTerminal {
    /// Everything shown so far: program output and committed input.
    pub closed spec fn spec_display(&self) -> Seq<u8> {
        self.display@
    }

    /// The committed bytes waiting to be read as input.
    pub closed spec fn spec_input(&self) -> Seq<u8> {
        self.available_input@
    }

    /// The editable, not yet committed line.
    pub closed spec fn spec_uncommitted(&self) -> Seq<u8> {
        self.uncommitted@
    }

    /// Where the editing cursor stands in the uncommitted line.
    pub closed spec fn spec_cursor(&self) -> int {
        self.cursor as int
    }

    /// Whether a change has not been observed yet.
    pub closed spec fn spec_dirty(&self) -> bool {
        self.dirty
    }

    /// The terminal is consistent: the recorded newline indices are
    /// exactly the newlines of the display, and the cursor stays
    /// within the uncommitted line.
    pub closed spec fn wf(&self) -> bool {
        &&& self.newline_indices@.map(|i: int, v: usize| v as int) == newline_positions(
            self.display@,
        )
        &&& self.cursor <= self.uncommitted@.len()
        &&& forall|t: int| 0 <= t < self.uncommitted@.len() ==> #[trigger] self.uncommitted@[t] != 10u8
    }

    /// An empty terminal: nothing shown, nothing typed, nothing to
    /// read.
    pub fn new() -> (t: VirtualTerminal)
        ensures
            t.wf(),
            t.spec_display() == Seq::<u8>::empty(),
            t.spec_input() == Seq::<u8>::empty(),
            t.spec_uncommitted() == Seq::<u8>::empty(),
            t.spec_cursor() == 0,
            !t.spec_dirty(),
    {
        let t = VirtualTerminal {
            display: Vec::new(),
            newline_indices: Vec::new(),
            available_input: std::collections::VecDeque::new(),
            uncommitted: Vec::new(),
            cursor: 0,
            dirty: false,
        };
        proof {
            assert(t.newline_indices@.map(|i: int, v: usize| v as int) =~= newline_positions(
                t.display@,
            ));
        }
        t
    }

    /// Moves the cursor one place left, if it is not at the front.
    pub fn left(&mut self)
        requires
            old(self).wf(),
        ensures
            final(self).wf(),
            final(self).spec_cursor() == (if old(self).spec_cursor() == 0 {
                0int
            } else {
                old(self).spec_cursor() - 1
            }),
            final(self).spec_dirty() == (old(self).spec_cursor() != 0 || old(self).spec_dirty()),
            final(self).spec_display() == old(self).spec_display(),
            final(self).spec_input() == old(self).spec_input(),
            final(self).spec_uncommitted() == old(self).spec_uncommitted(),
    {
        if self.cursor == 0 {
            return ;
        }
        self.cursor = self.cursor - 1;
        self.dirty = true;
    }

    /// Moves the cursor one place right, up to the end of the line.
    pub fn right(&mut self)
        requires
            old(self).wf(),
        ensures
            final(self).wf(),
            final(self).spec_cursor() == (if old(self).spec_cursor() == old(self).spec_uncommitted().len() {
                old(self).spec_cursor()
            } else {
                old(self).spec_cursor() + 1
            }),
            final(self).spec_dirty() == (old(self).spec_cursor() != old(self).spec_uncommitted().len() || old(self).spec_dirty()),
            final(self).spec_display() == old(self).spec_display(),
            final(self).spec_input() == old(self).spec_input(),
            final(self).spec_uncommitted() == old(self).spec_uncommitted(),
    {
        if self.cursor == self.uncommitted.len() {
            return ;
        }
        self.cursor = self.cursor + 1;
        self.dirty = true;
    }

    /// Inserts a printable ASCII byte at the cursor and advances it;
    /// anything beyond ASCII, and a bare newline, is ignored.
    pub fn input_key(&mut self, c: u8)
        requires
            old(self).wf(),
            old(self).spec_uncommitted().len() + 1 < usize::MAX,
        ensures
            final(self).wf(),
            c < 128 && c != 10 ==> final(self).spec_uncommitted() == old(self).spec_uncommitted().insert(old(self).spec_cursor(), c) && final(self).spec_cursor()
                == old(self).spec_cursor() + 1 && final(self).spec_dirty(),
            !(c < 128 && c != 10) ==> *final(self) == *old(self),
            final(self).spec_display() == old(self).spec_display(),
            final(self).spec_input() == old(self).spec_input(),
    {
        if c >= 128 || c == 10 {
            return ;
        }
        self.uncommitted.insert(self.cursor, c);
        self.cursor = self.cursor + 1;
        self.dirty = true;
    }

    /// Removes the byte before the cursor, if there is one.
    pub fn backspace(&mut self)
        requires
            old(self).wf(),
        ensures
            final(self).wf(),
            old(self).spec_cursor() == 0 ==> *final(self) == *old(self),
            old(self).spec_cursor() > 0 ==> final(self).spec_uncommitted() == old(self).spec_uncommitted().remove(old(self).spec_cursor() - 1) && final(self).spec_cursor()
                == old(self).spec_cursor() - 1 && final(self).spec_dirty(),
            final(self).spec_display() == old(self).spec_display(),
            final(self).spec_input() == old(self).spec_input(),
    {
        if self.uncommitted.len() == 0 {
            return ;
        }
        if self.cursor == 0 {
            return ;
        }
        self.uncommitted.remove(self.cursor - 1);
        self.cursor = self.cursor - 1;
        self.dirty = true;
    }

    /// Removes the byte under the cursor, if there is one; the cursor
    /// stays where it is.
    pub fn delete(&mut self)
        requires
            old(self).wf(),
        ensures
            final(self).wf(),
            old(self).spec_cursor() == old(self).spec_uncommitted().len() ==> *final(self) == *old(self),
            old(self).spec_cursor() < old(self).spec_uncommitted().len() ==> final(self).spec_uncommitted() == old(self).spec_uncommitted().remove(old(self).spec_cursor())
                && final(self).spec_cursor() == old(self).spec_cursor() && final(self).spec_dirty(),
            final(self).spec_display() == old(self).spec_display(),
            final(self).spec_input() == old(self).spec_input(),
    {
        if self.cursor == self.uncommitted.len() {
            return ;
        }
        self.uncommitted.remove(self.cursor);
        self.dirty = true;
    }

    /// Commits the uncommitted line: a newline is appended, and the
    /// whole line goes to both the available input and the display;
    /// the prompt is empty afterwards.
    pub fn commit(&mut self)
        requires
            old(self).wf(),
            old(self).spec_display().len() + old(self).spec_uncommitted().len() + 2 <= usize::MAX,
        ensures
            final(self).wf(),
            final(self).spec_display() == old(self).spec_display() + old(self).spec_uncommitted().push(10u8),
            final(self).spec_input() == old(self).spec_input() + old(self).spec_uncommitted().push(10u8),
            final(self).spec_uncommitted() == Seq::<u8>::empty(),
            final(self).spec_cursor() == 0,
            final(self).spec_dirty(),
    {
        let ghost line0 = self.uncommitted@;
        self.uncommitted.push(10);
        let ghost line = self.uncommitted@;
        // move the line into the available input
        let mut i: usize = 0;
        let n = self.uncommitted.len();
        while i < n
            invariant
                0 <= i <= n == line.len(),
                self.uncommitted@ == line,
                self.available_input@ == old(self).available_input@ + line.take(i as int),
                self.display == old(self).display,
                self.newline_indices == old(self).newline_indices,
                self.cursor == old(self).cursor,
            decreases n - i,
        {
            self.available_input.push_back(self.uncommitted[i]);
            proof {
                assert(self.available_input@ =~= old(self).available_input@ + line.take(i + 1));
            }
            i = i + 1;
        }
        proof {
            assert(line.take(line.len() as int) =~= line);
        }
        // and append it to the display, recording its newline
        self.newline_indices.push(self.display.len() + self.uncommitted.len() - 1);
        let mut j: usize = 0;
        while j < n
            invariant
                0 <= j <= n == line.len(),
                line.last() == 10u8,
                forall|t: int| 0 <= t < line.len() - 1 ==> #[trigger] line[t] != 10u8,
                self.uncommitted@ == line,
                self.display@ == old(self).display@ + line.take(j as int),
                self.newline_indices@ == old(self).newline_indices@.push(
                    (old(self).display@.len() + line.len() - 1) as usize,
                ),
                self.available_input@ == old(self).available_input@ + line,
                self.cursor == old(self).cursor,
            decreases n - j,
        {
            self.display.push(self.uncommitted[j]);
            proof {
                assert(self.display@ =~= old(self).display@ + line.take(j + 1));
            }
            j = j + 1;
        }
        proof {
            assert(line.take(line.len() as int) =~= line);
        }
        self.uncommitted.clear();
        self.cursor = 0;
        self.dirty = true;
        proof {
            assert(line0.push(10u8) == line);
            lemma_newline_append(old(self).display@, line);
            assert(self.newline_indices@.map(|i: int, v: usize| v as int) =~= newline_positions(
                self.display@,
            ));
        }
    }

    /// Routes one key press to the prompt: arrows move the cursor,
    /// backspace and delete edit, enter commits, plain bytes are
    /// typed; anything else is ignored.
    pub fn on_key_event(&mut self, key: Key)
        requires
            old(self).wf(),
            old(self).spec_display().len() + old(self).spec_uncommitted().len() + 3
                <= usize::MAX,
        ensures
            final(self).wf(),
            key is Left ==> final(self).spec_cursor() == (if old(self).spec_cursor() == 0 {
                0int
            } else {
                old(self).spec_cursor() - 1
            }) && final(self).spec_uncommitted() == old(self).spec_uncommitted() && final(self).spec_display() == old(self).spec_display() && final(self).spec_input() == old(self).spec_input(),
            key is Right ==> final(self).spec_cursor() == (if old(self).spec_cursor() == old(self).spec_uncommitted().len() {
                old(self).spec_cursor()
            } else {
                old(self).spec_cursor() + 1
            }) && final(self).spec_uncommitted() == old(self).spec_uncommitted() && final(self).spec_display() == old(self).spec_display() && final(self).spec_input() == old(self).spec_input(),
            key is Backspace ==> (old(self).spec_cursor() > 0 ==> final(self).spec_uncommitted()
                == old(self).spec_uncommitted().remove(old(self).spec_cursor() - 1)) && (old(self).spec_cursor() == 0 ==> *final(self) == *old(self)) && final(self).spec_display()
                == old(self).spec_display() && final(self).spec_input() == old(self).spec_input(),
            key is Delete ==> (old(self).spec_cursor() < old(self).spec_uncommitted().len()
                ==> final(self).spec_uncommitted() == old(self).spec_uncommitted().remove(
                old(self).spec_cursor(),
            )) && final(self).spec_display() == old(self).spec_display() && final(self).spec_input() == old(self).spec_input(),
            key is Enter ==> final(self).spec_display() == old(self).spec_display() + old(self).spec_uncommitted().push(10u8) && final(self).spec_input() == old(self).spec_input()
                + old(self).spec_uncommitted().push(10u8) && final(self).spec_uncommitted() == Seq::<
                u8,
            >::empty(),
            (key matches Key::Char(c)) && key->Char_0 < 128 && key->Char_0 != 10 ==> final(self).spec_uncommitted() == old(self).spec_uncommitted().insert(
                old(self).spec_cursor(),
                key->Char_0,
            ) && final(self).spec_display() == old(self).spec_display() && final(self).spec_input()
                == old(self).spec_input(),
            (key is Tab || key is BackTab || key is Other) ==> *final(self) == *old(self),
    {
        match key {
            Key::Backspace => self.backspace(),
            Key::Enter => self.commit(),
            Key::Left => self.left(),
            Key::Right => self.right(),
            Key::Delete => self.delete(),
            Key::Char(c) => self.input_key(c),
            _ => {},
        }
    }

    /// One committed line of the display: the bytes between two
    /// newlines (or the buffer's ends), or nothing for a line that
    /// does not exist yet.
    pub fn get_line(&self, line: usize) -> (r: Option<Vec<u8>>)
        requires
            self.wf(),
        ensures
            ({
                let nl = newline_positions(self.spec_display());
                &&& line > nl.len() ==> r == None::<Vec<u8>>
                &&& line <= nl.len() ==> ({
                    let start: int = if line == 0 {
                        0
                    } else {
                        nl[line - 1] + 1
                    };
                    let end: int = if line == nl.len() {
                        self.spec_display().len() as int
                    } else {
                        nl[line as int]
                    };
                    r is Some && r.unwrap()@ == self.spec_display().subrange(start, end)
                })
            }),
    {
        proof {
            lemma_newline_positions_sorted(self.spec_display());
        }
        let newlines = self.newline_indices.len();
        let dlen = self.display.len();
        if line > newlines {
            return None;
        }
        proof {
            assert(self.display@.len() == dlen);
            let nl = newline_positions(self.spec_display());
            if line > 0 {
                assert(self.newline_indices@.map(|t: int, v: usize| v as int)[line - 1] == nl[line
                    - 1]);
                assert(self.newline_indices@[line - 1] as int == nl[line - 1]);
            }
            if line < newlines {
                assert(self.newline_indices@.map(|t: int, v: usize| v as int)[line as int]
                    == nl[line as int]);
            }
        }
        let start: usize = if line == 0 {
            0
        } else {
            self.newline_indices[line - 1] + 1
        };
        let end: usize = if line == newlines {
            self.display.len()
        } else {
            self.newline_indices[line]
        };
        let mut out: Vec<u8> = Vec::new();
        let mut k = start;
        proof {
            if line > 0 && line < newlines {
                assert(newline_positions(self.spec_display())[line - 1] < newline_positions(
                    self.spec_display(),
                )[line as int]);
            }
        }
        while k < end
            invariant
                start <= k <= end <= self.display@.len(),
                out@ == self.display@.subrange(start as int, k as int),
            decreases end - k,
        {
            out.push(self.display[k]);
            proof {
                assert(out@ =~= self.display@.subrange(start as int, k + 1));
            }
            k = k + 1;
        }
        proof {
            assert(out@ =~= self.display@.subrange(start as int, end as int));
        }
        Some(out)
    }

    /// How many lines the display holds; an unterminated last line
    /// counts.
    pub fn num_lines(&self) -> (n: usize)
        requires
            self.wf(),
            self.spec_display().len() < usize::MAX,
        ensures
            n == newline_positions(self.spec_display()).len() + 1,
    {
        proof {
            lemma_newline_positions_sorted(self.spec_display());
        }
        self.newline_indices.len() + 1
    }

    /// Everything shown so far: program output and committed input.
    pub fn display(&self) -> (r: &Vec<u8>)
        ensures
            r@ == self.spec_display(),
    {
        &self.display
    }

    /// A copy of the committed bytes waiting to be read.
    pub fn available_input(&self) -> (r: Vec<u8>)
        ensures
            r@ == self.spec_input(),
    {
        let mut out: Vec<u8> = Vec::new();
        let mut i: usize = 0;
        let n = self.available_input.len();
        while i < n
            invariant
                0 <= i <= n == self.available_input@.len(),
                out@ == self.available_input@.take(i as int),
            decreases n - i,
        {
            out.push(self.available_input[i]);
            proof {
                assert(out@ =~= self.available_input@.take(i + 1));
            }
            i = i + 1;
        }
        proof {
            assert(out@ =~= self.available_input@);
        }
        out
    }

    /// The editable, not yet committed line.
    pub fn uncommitted(&self) -> (r: &Vec<u8>)
        ensures
            r@ == self.spec_uncommitted(),
    {
        &self.uncommitted
    }

    /// Where the editing cursor stands in the uncommitted line.
    pub fn cursor(&self) -> (r: usize)
        ensures
            r == self.spec_cursor(),
            self.wf() ==> r <= self.spec_uncommitted().len(),
    {
        self.cursor
    }

    /// Whether a change happened since the last look; looking clears
    /// the flag.
    pub fn dirty(&mut self) -> (r: bool)
        ensures
            r == old(self).spec_dirty(),
            !final(self).spec_dirty(),
            final(self).wf() == old(self).wf(),
            final(self).spec_display() == old(self).spec_display(),
            final(self).spec_input() == old(self).spec_input(),
            final(self).spec_uncommitted() == old(self).spec_uncommitted(),
            final(self).spec_cursor() == old(self).spec_cursor(),
    {
        let d = self.dirty;
        self.dirty = false;
        d
    }
}

/// Appending a chunk whose only newline is its last byte appends
/// exactly one newline position.
proof fn lemma_newline_append(s: Seq<u8>, chunk: Seq<u8>)
    requires
        chunk.len() > 0,
        chunk.last() == 10u8,
        forall|t: int| 0 <= t < chunk.len() - 1 ==> #[trigger] chunk[t] != 10u8,
    ensures
        newline_positions(s + chunk) == newline_positions(s).push(s.len() + chunk.len() - 1),
    decreases chunk.len(),
{
    if chunk.len() == 1 {
        assert((s + chunk).drop_last() =~= s);
        assert((s + chunk).last() == 10u8);
    } else {
        lemma_newline_prefix_frame(s, chunk);
    }
}

/// Appending bytes that hold no newline leaves the newline positions
/// alone.
proof fn lemma_newline_append_clean(s: Seq<u8>, chunk: Seq<u8>)
    requires
        forall|t: int| 0 <= t < chunk.len() ==> #[trigger] chunk[t] != 10u8,
    ensures
        newline_positions(s + chunk) == newline_positions(s),
    decreases chunk.len(),
{
    if chunk.len() > 0 {
        assert((s + chunk).drop_last() =~= s + chunk.drop_last());
        assert((s + chunk).last() == chunk.last());
        assert(forall|t: int|
            0 <= t < chunk.drop_last().len() ==> #[trigger] chunk.drop_last()[t] != 10u8);
        lemma_newline_append_clean(s, chunk.drop_last());
    } else {
        assert(s + chunk =~= s);
    }
}

proof fn lemma_newline_prefix_frame(s: Seq<u8>, chunk: Seq<u8>)
    requires
        chunk.len() > 1,
        chunk.last() == 10u8,
        forall|t: int| 0 <= t < chunk.len() - 1 ==> #[trigger] chunk[t] != 10u8,
    ensures
        newline_positions(s + chunk) == newline_positions(s).push(s.len() + chunk.len() - 1),
{
    assert((s + chunk).drop_last() =~= s + chunk.drop_last());
    assert((s + chunk).last() == 10u8);
    assert(forall|t: int|
        0 <= t < chunk.drop_last().len() ==> #[trigger] chunk.drop_last()[t] != 10u8);
    lemma_newline_append_clean(s, chunk.drop_last());
}

/// The terminal's input/output capability views are its committed
/// input and its display.
pub broadcast proof fn lemma_vt_views(t: VirtualTerminal)
    ensures
        #[trigger] t.in_view() == t.spec_input(),
        t.out_view() == t.spec_display(),
{
}

impl IO for VirtualTerminal {
    closed spec fn in_view(&self) -> Seq<u8> {
        self.available_input@
    }

    closed spec fn out_view(&self) -> Seq<u8> {
        self.display@
    }

    fn read_byte(&mut self) -> (r: Option<u8>)
        ensures
            final(self).wf() == old(self).wf(),
            final(self).spec_uncommitted() == old(self).spec_uncommitted(),
            final(self).spec_cursor() == old(self).spec_cursor(),
            final(self).spec_dirty() == old(self).spec_dirty(),
    {
        self.available_input.pop_front()
    }

    fn read_number(&mut self) -> (r: Option<u8>)
        ensures
            final(self).wf() == old(self).wf(),
            final(self).spec_uncommitted() == old(self).spec_uncommitted(),
            final(self).spec_cursor() == old(self).spec_cursor(),
            final(self).spec_dirty() == old(self).spec_dirty(),
    {
        read_number_from_deque(&mut self.available_input)
    }

    fn write(&mut self, buf: &[u8])
        ensures
            old(self).wf() ==> final(self).wf(),
            final(self).spec_uncommitted() == old(self).spec_uncommitted(),
            final(self).spec_cursor() == old(self).spec_cursor(),
            final(self).spec_dirty(),
    {
        let mut i: usize = 0;
        while i < buf.len()
            invariant
                0 <= i <= buf@.len(),
                self.display@ == old(self).display@ + buf@.take(i as int),
                self.available_input == old(self).available_input,
                self.uncommitted == old(self).uncommitted,
                self.cursor == old(self).cursor,
                self.dirty == old(self).dirty,
                old(self).wf() ==> self.newline_indices@.map(|t: int, v: usize| v as int)
                    == newline_positions(self.display@),
            decreases buf@.len() - i,
        {
            let b = buf[i];
            if b == 10 {
                self.newline_indices.push(self.display.len());
            }
            let ghost pre = self.display@;
            self.display.push(b);
            proof {
                if old(self).wf() {
                    assert(self.display@ == pre.push(buf@[i as int]));
                    assert(pre.push(buf@[i as int]).drop_last() =~= pre);
                    assert(self.newline_indices@.map(|t: int, v: usize| v as int)
                        =~= newline_positions(self.display@));
                }
                assert(self.display@ =~= old(self).display@ + buf@.take(i + 1));
            }
            i = i + 1;
        }
        self.dirty = true;
        proof {
            assert(buf@.take(buf@.len() as int) =~= buf@);
        }
    }
}

} // verus!
