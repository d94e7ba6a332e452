//! Byte and decimal-integer input parsing, and the output sink.
//!
//! A reader skips leading non-digits, then accumulates consecutive
//! digits into a byte; it reports that more input is needed when the
//! buffer ends before a non-digit terminator arrives.

use vstd::prelude::*;

verus! {

/// Whether a byte is an ASCII decimal digit.
pub open spec fn is_ascii_digit(b: u8) -> bool {
    48 <= b <= 57
}

/// How many leading bytes of `s` are not digits.
pub open spec fn skip_count(s: Seq<u8>) -> int
    decreases s.len(),
{
    if s.len() == 0 {
        0int
    } else if is_ascii_digit(s[0]) {
        0int
    } else {
        1 + skip_count(s.drop_first())
    }
}

/// `skip_count` names the position of the first digit: everything
/// before it is a non-digit, and it is a digit unless the input holds
/// none at all.
pub proof fn lemma_skip_count(s: Seq<u8>)
    ensures
        0 <= skip_count(s) <= s.len(),
        forall|j: int| 0 <= j < skip_count(s) ==> !is_ascii_digit(#[trigger] s[j]),
        skip_count(s) < s.len() ==> is_ascii_digit(s[skip_count(s)]),
    decreases s.len(),
{
    if s.len() > 0 && !is_ascii_digit(s[0]) {
        lemma_skip_count(s.drop_first());
        assert forall|j: int| 0 <= j < skip_count(s) implies !is_ascii_digit(#[trigger] s[j]) by {
            if j > 0 {
                assert(s.drop_first()[j - 1] == s[j]);
            }
        }
    }
}

/// Shifting a digit into an accumulated value: the grown value if it
/// still fits a byte, and nothing if it would run over 255.
pub open spec fn combined(old_num: u8, digit: u8) -> Option<u8> {
    if old_num <= 25 && old_num * 10 + digit <= 255 {
        Some((old_num * 10 + digit) as u8)
    } else {
        None
    }
}

/// Walks digits from index `i`, having consumed `off` bytes and
/// accumulated `num`: stops in front of a non-digit or of a digit
/// that no longer fits, and reports nothing when the input ends
/// first.
pub open spec fn scan_digits(s: Seq<u8>, i: int, off: int, num: u8) -> Option<(int, u8)>
    decreases s.len() - i,
{
    if i < 0 || i >= s.len() {
        None
    } else if !is_ascii_digit(s[i]) {
        Some((off, num))
    } else {
        match combined(num, (s[i] - 48) as u8) {
            Some(next) => scan_digits(s, i + 1, i + 1, next),
            None => Some((off, num)),
        }
    }
}

/// What reading a decimal number from `s` yields: `Ok((n, v))` when a
/// number `v` is read and `n` bytes (prefix and digits, terminator
/// excluded) are consumed, and `Err(k)` when no full number is there
/// yet and only the `k` leading non-digits may be discarded.
pub open spec fn read_number_result(s: Seq<u8>) -> Result<(int, u8), int> {
    let f = skip_count(s);
    if f >= s.len() {
        Err(f)
    } else {
        match scan_digits(s, f + 1, f + 1, (s[f] - 48) as u8) {
            Some((off, num)) => Ok((off, num)),
            None => Err(f),
        }
    }
}

/// How many bytes of `s` reading a number consumes, whether or not a
/// number came out.
pub open spec fn read_number_consumed(s: Seq<u8>) -> int {
    match read_number_result(s) {
        Ok((off, _)) => off,
        Err(k) => k,
    }
}

/// The number that reading from `s` yields, if any.
pub open spec fn read_number_value(s: Seq<u8>) -> Option<u8> {
    match read_number_result(s) {
        Ok((_, num)) => Some(num),
        Err(_) => None,
    }
}

/// The consumed count stays within the input.
pub proof fn lemma_read_number_consumed_bounds(s: Seq<u8>)
    ensures
        0 <= read_number_consumed(s) <= s.len(),
{
    lemma_skip_count(s);
    let f = skip_count(s);
    if f < s.len() {
        lemma_scan_digits_bounds(s, f + 1, f + 1, (s[f] - 48) as u8);
    }
}

proof fn lemma_scan_digits_bounds(s: Seq<u8>, i: int, off: int, num: u8)
    requires
        0 <= off <= i <= s.len(),
    ensures
        match scan_digits(s, i, off, num) {
            Some((o, _)) => 0 <= o <= s.len(),
            None => true,
        },
    decreases s.len() - i,
{
    if i < s.len() && is_ascii_digit(s[i]) {
        if let Some(next) = combined(num, (s[i] - 48) as u8) {
            lemma_scan_digits_bounds(s, i + 1, i + 1, next);
        }
    }
}

/// Shifts one more digit into an accumulated value, so long as the
/// result still fits in a byte.
pub fn try_combine(old_num: u8, new_digit: u8) -> (r: Option<u8>)
    ensures
        r == combined(old_num, new_digit),
{
    if old_num > 25 {
        return None;
    }
    let value = old_num * 10;
    let remaining = 255 - value;
    if new_digit > remaining {
        return None;
    }
    Some(value + new_digit)
}

/// Finds the first digit: `Ok((n, v))` where `n - 1` non-digits come
/// before the digit `v` at index `n - 1`, or `Err(k)` when all `k`
/// bytes hold no digit.
pub fn base_number(bytes: &[u8]) -> (r: Result<(usize, u8), usize>)
    ensures
        skip_count(bytes@) < bytes@.len() ==> r == Ok::<(usize, u8), usize>(
            ((skip_count(bytes@) + 1) as usize, ((bytes@[skip_count(bytes@)] - 48) as u8)),
        ),
        skip_count(bytes@) >= bytes@.len() ==> r == Err::<(usize, u8), usize>(bytes.len()),
{
    proof {
        lemma_skip_count(bytes@);
    }
    let ghost f = skip_count(bytes@);
    let mut i: usize = 0;
    while i < bytes.len()
        invariant
            0 <= i <= bytes@.len(),
            forall|j: int| 0 <= j < i ==> !is_ascii_digit(#[trigger] bytes@[j]),
            f == skip_count(bytes@),
            0 <= f <= bytes@.len(),
            forall|j: int| 0 <= j < f ==> !is_ascii_digit(#[trigger] bytes@[j]),
            f < bytes@.len() ==> is_ascii_digit(bytes@[f]),
            i <= f,
        decreases bytes@.len() - i,
    {
        let b = bytes[i];
        if 48 <= b && b <= 57 {
            proof {
                assert(f == i);
            }
            return Ok((i + 1, b - 48));
        }
        i = i + 1;
    }
    Err(bytes.len())
}

/// Reads a decimal number from the front of `bytes`, skipping any
/// leading non-digits. `Ok((n, v))` consumes the `n` bytes up to the
/// last digit that still fit, keeping the terminator; `Err(k)` means
/// the input ended before a terminator, and only the `k` leading
/// non-digits may be discarded.
pub fn try_read_number(bytes: &[u8]) -> (r: Result<(usize, u8), usize>)
    ensures
        r == match read_number_result(bytes@) {
            Ok((off, num)) => Ok::<(usize, u8), usize>((off as usize, num)),
            Err(k) => Err::<(usize, u8), usize>(k as usize),
        },
{
    proof {
        lemma_skip_count(bytes@);
    }
    let n = bytes.len();
    let (first_offset, first_num) = match base_number(bytes) {
        Ok(p) => p,
        Err(k) => {
            return Err(k);
        },
    };
    proof {
        assert(skip_count(bytes@) + 1 <= n);
        assert(first_offset == skip_count(bytes@) + 1);
    }
    let skippable = first_offset - 1;
    let mut offset = first_offset;
    let mut num = first_num;
    let mut i = first_offset;
    while i < bytes.len()
        invariant
            0 <= skippable < i <= bytes@.len(),
            skippable == skip_count(bytes@),
            offset <= i,
            scan_digits(bytes@, skippable + 1, skippable + 1, ((bytes@[skippable as int] - 48) as u8))
                == scan_digits(bytes@, i as int, offset as int, num),
        decreases bytes@.len() - i,
    {
        let b = bytes[i];
        if 48 <= b && b <= 57 {
            match try_combine(num, b - 48) {
                Some(new_num) => {
                    offset = i + 1;
                    num = new_num;
                },
                None => {
                    return Ok((offset, num));
                },
            }
        } else {
            return Ok((offset, num));
        }
        i = i + 1;
    }
    Err(skippable)
}

/// A source of input bytes and numbers and a sink for output bytes.
///
/// The interpreter is generic over this capability; concrete sources
/// say in `in_view` what is left to read and in `out_view` what has
/// been written.
pub trait IO: Sized {
    /// The bytes available to read, front first.
    spec fn in_view(&self) -> Seq<u8>;

    /// The bytes written so far, oldest first.
    spec fn out_view(&self) -> Seq<u8>;

    /// Reads one byte, or reports that none is available.
    fn read_byte(&mut self) -> (r: Option<u8>)
        ensures
            old(self).in_view().len() == 0 ==> r == None::<u8> && final(self).in_view() == old(self).in_view(),
            old(self).in_view().len() > 0 ==> r == Some(old(self).in_view()[0]) && final(self).in_view() == old(self).in_view().drop_first(),
            final(self).out_view() == old(self).out_view();

    /// Reads a decimal number, discarding any leading non-digits, or
    /// reports that a full number is not available yet.
    fn read_number(&mut self) -> (r: Option<u8>)
        ensures
            r == read_number_value(old(self).in_view()),
            final(self).in_view() == old(self).in_view().skip(
                read_number_consumed(old(self).in_view()),
            ),
            final(self).out_view() == old(self).out_view();

    /// Appends bytes to the output.
    fn write(&mut self, buf: &[u8])
        ensures
            final(self).out_view() == old(self).out_view() + buf@,
            final(self).in_view() == old(self).in_view();
}

/// An in-memory source and sink: input is handed in by the caller,
/// output collects in a buffer until it is taken.
pub struct VecIO {
    input_buffer: std::collections::VecDeque<u8>,
    output_buffer: Vec<u8>,
}

impl Default for VecIO {
    /// An empty source and sink.
    fn default() -> (r: VecIO)
        ensures
            r.in_view() == Seq::<u8>::empty(),
            r.out_view() == Seq::<u8>::empty(),
    {
        VecIO { input_buffer: std::collections::VecDeque::new(), output_buffer: Vec::new() }
    }
}

impl VecIO {
    /// Appends data to the input buffer.
    pub fn write_input(&mut self, input: &[u8])
        ensures
            final(self).in_view() == old(self).in_view() + input@,
            final(self).out_view() == old(self).out_view(),
    {
        let mut i: usize = 0;
        while i < input.len()
            invariant
                0 <= i <= input@.len(),
                self.input_buffer@ == old(self).input_buffer@ + input@.take(i as int),
                self.output_buffer == old(self).output_buffer,
            decreases input@.len() - i,
        {
            self.input_buffer.push_back(input[i]);
            proof {
                assert(input@.take(i + 1) =~= input@.take(i as int).push(input@[i as int]));
                assert(self.input_buffer@ =~= old(self).input_buffer@ + input@.take(i + 1));
            }
            i = i + 1;
        }
        proof {
            assert(input@.take(input@.len() as int) =~= input@);
        }
    }

    /// Hands out everything written so far and leaves the output
    /// buffer empty.
    pub fn take_output(&mut self) -> (r: Vec<u8>)
        ensures
            r@ == old(self).out_view(),
            final(self).out_view() == Seq::<u8>::empty(),
            final(self).in_view() == old(self).in_view(),
    {
        let mut out: Vec<u8> = Vec::new();
        std::mem::swap(&mut out, &mut self.output_buffer);
        out
    }
}

/// Reads a decimal number from the front of a byte queue, consuming
/// what [`read_number_result`] says a reader consumes.
pub fn read_number_from_deque(q: &mut std::collections::VecDeque<u8>) -> (r: Option<u8>)
    ensures
        r == read_number_value(old(q)@),
        final(q)@ == old(q)@.skip(read_number_consumed(old(q)@)),
{
    let ghost iv = q@;
    let mut scratch: Vec<u8> = Vec::new();
    let mut i: usize = 0;
    let n = q.len();
    while i < n
        invariant
            0 <= i <= n == q@.len(),
            scratch@ == q@.take(i as int),
            q@ == iv,
        decreases n - i,
    {
        scratch.push(q[i]);
        proof {
            assert(scratch@ =~= q@.take(i + 1));
        }
        i = i + 1;
    }
    proof {
        assert(scratch@ =~= iv);
        lemma_read_number_consumed_bounds(iv);
    }
    let (consumed, value) = match try_read_number(scratch.as_slice()) {
        Ok((off, num)) => (off, Some(num)),
        Err(skip) => (skip, None),
    };
    let mut k: usize = 0;
    while k < consumed
        invariant
            0 <= k <= consumed <= iv.len(),
            q@ == iv.skip(k as int),
        decreases consumed - k,
    {
        q.pop_front();
        proof {
            assert(iv.skip(k as int).drop_first() =~= iv.skip(k + 1));
        }
        k = k + 1;
    }
    value
}

impl IO for VecIO {
    closed spec fn in_view(&self) -> Seq<u8> {
        self.input_buffer@
    }

    closed spec fn out_view(&self) -> Seq<u8> {
        self.output_buffer@
    }

    fn read_byte(&mut self) -> (r: Option<u8>) {
        self.input_buffer.pop_front()
    }

    fn read_number(&mut self) -> (r: Option<u8>) {
        read_number_from_deque(&mut self.input_buffer)
    }

    fn write(&mut self, buf: &[u8]) {
        let mut i: usize = 0;
        while i < buf.len()
            invariant
                0 <= i <= buf@.len(),
                self.output_buffer@ == old(self).output_buffer@ + buf@.take(i as int),
                self.input_buffer == old(self).input_buffer,
            decreases buf@.len() - i,
        {
            self.output_buffer.push(buf[i]);
            proof {
                assert(self.output_buffer@ =~= old(self).output_buffer@ + buf@.take(i + 1));
            }
            i = i + 1;
        }
        proof {
            assert(buf@.take(buf@.len() as int) =~= buf@);
        }
    }
}

/// A fixed-size scratch buffer for line-buffered input: bytes come in
/// from the caller in chunks and are handed out one at a time. The
/// refilling itself is the caller's business; this type only manages
/// the window of unread bytes.
pub struct InputBuffer {
    buffer: Vec<u8>,
    offset: usize,
    length: usize,
}

impl InputBuffer {
    /// How many bytes the scratch buffer can hold at once.
    pub open spec fn capacity() -> int {
        32
    }

    /// The buffer is a 32-byte window with the unread range inside it.
    pub closed spec fn wf(&self) -> bool {
        self.buffer@.len() == 32 && self.offset + self.length <= 32
    }

    /// The unread bytes, front first.
    pub closed spec fn contents(&self) -> Seq<u8> {
        self.buffer@.subrange(self.offset as int, self.offset + self.length)
    }

    /// How many bytes are unread.
    pub fn len(&self) -> (n: usize)
        requires
            self.wf(),
        ensures
            n == self.contents().len(),
    {
        self.length
    }

    /// Whether no byte is waiting to be read.
    pub fn is_empty(&self) -> (r: bool)
        requires
            self.wf(),
        ensures
            r == (self.contents().len() == 0),
    {
        self.length == 0
    }

    /// An empty scratch buffer.
    pub fn new() -> (r: InputBuffer)
        ensures
            r.wf(),
            r.contents() == Seq::<u8>::empty(),
    {
        let mut buffer: Vec<u8> = Vec::new();
        let mut i: usize = 0;
        while i < 32
            invariant
                buffer@.len() == i <= 32,
            decreases 32 - i,
        {
            buffer.push(0);
            i = i + 1;
        }
        let r = InputBuffer { buffer, offset: 0, length: 0 };
        proof {
            assert(r.contents() =~= Seq::<u8>::empty());
        }
        r
    }

    /// Reads the next unread byte, or reports that none is there.
    pub fn read_byte(&mut self) -> (r: Option<u8>)
        requires
            old(self).wf(),
        ensures
            final(self).wf(),
            old(self).contents().len() == 0 ==> r == None::<u8> && final(self).contents() == old(self).contents(),
            old(self).contents().len() > 0 ==> r == Some(old(self).contents()[0]) && final(self).contents() == old(self).contents().drop_first(),
    {
        if self.length == 0 {
            return None;
        }
        let value = self.buffer[self.offset];
        self.offset = self.offset + 1;
        self.length = self.length - 1;
        proof {
            assert(self.contents() =~= old(self).contents().drop_first());
        }
        Some(value)
    }

    /// Drops the first `skip` unread bytes and moves the rest to the
    /// front of the buffer.
    pub fn skip_and_shift(&mut self, skip: usize)
        requires
            old(self).wf(),
            skip <= old(self).contents().len(),
        ensures
            final(self).wf(),
            final(self).contents() == old(self).contents().skip(skip as int),
    {
        self.shift_impl(skip);
    }

    /// The shifting behind [`Self::skip_and_shift`], which also
    /// records that the window starts at the front afterwards.
    fn shift_impl(&mut self, skip: usize)
        requires
            old(self).wf(),
            skip <= old(self).contents().len(),
        ensures
            final(self).wf(),
            final(self).contents() == old(self).contents().skip(skip as int),
            final(self).offset == 0,
            final(self).length == old(self).length - skip,
    {
        let remaining = self.length - skip;
        let mut j: usize = 0;
        while j < remaining
            invariant
                old(self).wf(),
                j <= remaining,
                skip + remaining == old(self).length,
                self.offset == old(self).offset,
                self.length == old(self).length,
                self.buffer@.len() == 32,
                forall|t: int|
                    0 <= t < j ==> self.buffer@[t] == old(self).buffer@[
                        old(self).offset + skip + t
                    ],
                forall|t: int| j <= t < 32 ==> self.buffer@[t] == old(self).buffer@[t],
            decreases remaining - j,
        {
            let b = self.buffer[self.offset + skip + j];
            self.buffer.set(j, b);
            j = j + 1;
        }
        self.offset = 0;
        self.length = remaining;
        proof {
            assert(self.contents() =~= old(self).contents().skip(skip as int));
        }
    }

    /// Moves the unread bytes to the front of the buffer.
    fn compact(&mut self)
        requires
            old(self).wf(),
        ensures
            final(self).wf(),
            final(self).contents() == old(self).contents(),
            final(self).offset == 0,
            final(self).length == old(self).length,
    {
        self.shift_impl(0);
        proof {
            assert(old(self).contents().skip(0) =~= old(self).contents());
        }
    }

    /// Accepts as much of `incoming` as still fits behind the unread
    /// bytes, and says how much that was.
    pub fn read_more(&mut self, incoming: &[u8]) -> (n: usize)
        requires
            old(self).wf(),
        ensures
            final(self).wf(),
            n <= incoming@.len(),
            n == vstd::math::min(incoming@.len() as int, 32 - old(self).contents().len()),
            final(self).contents() == old(self).contents() + incoming@.take(n as int),
    {
        self.compact();
        let free = 32 - self.length;
        let n = if incoming.len() < free {
            incoming.len()
        } else {
            free
        };
        let mut j: usize = 0;
        while j < n
            invariant
                j <= n,
                self.offset == 0,
                self.length + n <= 32,
                self.length == old(self).contents().len(),
                n <= incoming@.len(),
                self.buffer@.len() == 32,
                forall|t: int| 0 <= t < self.length ==> self.buffer@[t] == old(self).contents()[t],
                forall|t: int|
                    0 <= t < j ==> self.buffer@[self.length + t] == incoming@[t],
            decreases n - j,
        {
            let b = incoming[j];
            self.buffer.set(self.length + j, b);
            j = j + 1;
        }
        self.length = self.length + n;
        proof {
            assert(self.contents() =~= old(self).contents() + incoming@.take(n as int));
        }
        n
    }

    /// A copy of the unread bytes.
    pub fn bytes(&self) -> (r: Vec<u8>)
        requires
            self.wf(),
        ensures
            r@ == self.contents(),
    {
        let mut out: Vec<u8> = Vec::new();
        let mut j: usize = 0;
        while j < self.length
            invariant
                self.wf(),
                j <= self.length,
                out@ == self.contents().take(j as int),
            decreases self.length - j,
        {
            out.push(self.buffer[self.offset + j]);
            proof {
                assert(out@ =~= self.contents().take(j + 1));
            }
            j = j + 1;
        }
        proof {
            assert(self.contents().take(self.length as int) =~= self.contents());
        }
        out
    }
}

} // verus!
