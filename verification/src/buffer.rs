//! A fixed-size buffer of protocol bytes: lines go in with CR-LF appended,
//! and come out one at a time with the CR-LF removed.
use crate::irc::rfc_defs::MAX_MSG_SIZE;
use vstd::prelude::*;
use vstd::slice::slice_subrange;
use vstd::string::*;
use vstd::utf8::*;

verus! {

/// The only way a buffer operation fails: not enough room left.
#[derive(Debug)]
pub enum BufferError {
    Overflow,
}

impl BufferError {
    /// A sentence that describes the error.
    pub fn to_string(&self) -> (res: String)
        ensures
            res@ == "Buffer overflow in client output buffer"@,
    {
        let mut s = String::new();
        s.append("Buffer overflow in client output buffer");
        s
    }
}

/// The text that `String::from_utf8_lossy` makes of some bytes.
pub uninterp spec fn lossy_utf8(bytes: Seq<u8>) -> Seq<char>;

/// `String::from_utf8_lossy(..).to_string()`: valid UTF-8 is decoded as it
/// stands; what it makes of invalid sequences (U+FFFD in their place) is
/// named, not stated.
#[verifier::external_body]
fn from_utf8_lossy(bytes: &[u8]) -> (res: String)
    ensures
        res@ == lossy_utf8(bytes@),
        valid_utf8(bytes@) ==> res@ == decode_utf8(bytes@),
{
    String::from_utf8_lossy(bytes).to_string()
}

/// The contents of a buffer: all of its bytes, and how many of them are in use.
pub struct BufferView {
    pub data: Seq<u8>,
    pub index: nat,
}

/// Copying `k` bytes one at a time, front to back, from `src` to `dest`.
pub open spec fn shifted(d: Seq<u8>, src: int, dest: int, k: nat) -> Seq<u8>
    decreases k,
{
    if k == 0 {
        d
    } else {
        let prev = shifted(d, src, dest, (k - 1) as nat);
        prev.update(dest + k - 1, prev[src + k - 1])
    }
}

/// `i` is the first position of a CR-LF pair among the first `n` bytes.
pub open spec fn is_first_crlf(d: Seq<u8>, n: int, i: int) -> bool {
    &&& 0 <= i
    &&& i + 1 < n
    &&& d[i] == 13u8
    &&& d[i + 1] == 10u8
    &&& forall|j: int| 0 <= j < i ==> !(d[j] == 13u8 && #[trigger] d[j + 1] == 10u8)
}

/// Where the first complete line of the buffer ends.
pub open spec fn spec_eol(v: BufferView) -> Option<int> {
    if exists|i: int| is_first_crlf(v.data, v.index as int, i) {
        Some(choose|i: int| is_first_crlf(v.data, v.index as int, i))
    } else {
        None
    }
}

/// The buffer after `bytes` went in at the index (when there is room).
pub open spec fn spec_append(v: BufferView, bytes: Seq<u8>) -> Option<BufferView> {
    if bytes.len() > MAX_MSG_SIZE - v.index {
        None
    } else {
        Some(
            BufferView {
                data: v.data.subrange(0, v.index as int) + bytes + v.data.subrange(
                    (v.index + bytes.len()) as int,
                    v.data.len() as int,
                ),
                index: v.index + bytes.len(),
            },
        )
    }
}

/// CR-LF.
pub open spec fn crlf() -> Seq<u8> {
    seq![13u8, 10u8]
}

/// The buffer after a line went in with CR-LF appended (when there is room).
pub open spec fn spec_append_ln(v: BufferView, line: Seq<char>) -> Option<BufferView> {
    spec_append(v, encode_utf8(line) + crlf())
}

/// The buffer after moving the bytes from `src` up to the index to the front.
pub open spec fn spec_shift_to_start(v: BufferView, src: int) -> BufferView {
    BufferView {
        data: shifted(v.data, src, 0, (v.index - src) as nat),
        index: (v.index - src) as nat,
    }
}

/// What taking the first line out gives: its bytes (without CR-LF) and the
/// buffer with the rest moved to the front; when there is no complete line,
/// the bytes in use, with the buffer left as it is.
pub open spec fn spec_extract(v: BufferView) -> (Seq<u8>, BufferView) {
    match spec_eol(v) {
        Some(i) => (v.data.subrange(0, i), spec_shift_to_start(v, i + 2)),
        None => (v.data.subrange(0, v.index as int), v),
    }
}

/// A buffer of at most `MAX_MSG_SIZE` bytes.
pub struct MessageBuffer {
    buffer: Vec<u8>,
    index: usize,
}

impl View for MessageBuffer {
    type V = BufferView;

    closed spec fn view(&self) -> BufferView {
        BufferView { data: self.buffer@, index: self.index as nat }
    }
}

impl MessageBuffer {
    /// The shape every buffer has.
    pub open spec fn well_formed(v: BufferView) -> bool {
        v.data.len() == MAX_MSG_SIZE && v.index <= MAX_MSG_SIZE
    }

    /// An empty buffer of zero bytes.
    pub fn new() -> (res: MessageBuffer)
        ensures
            res@.index == 0,
            res@.data == Seq::new(MAX_MSG_SIZE as nat, |i: int| 0u8),
            Self::well_formed(res@),
    {
        let mut buffer: Vec<u8> = Vec::new();
        let mut i: usize = 0;
        while i < MAX_MSG_SIZE
            invariant
                i <= MAX_MSG_SIZE,
                buffer@ == Seq::new(i as nat, |k: int| 0u8),
            decreases MAX_MSG_SIZE - i,
        {
            buffer.push(0u8);
            i += 1;
            assert(buffer@ =~= Seq::new(i as nat, |k: int| 0u8));
        }
        MessageBuffer { buffer, index: 0 }
    }

    /// How many bytes are in use.
    pub fn index(&self) -> (res: usize)
        requires
            Self::well_formed(self@),
        ensures
            res == self@.index,
            Self::well_formed(self@),
    {
        self.index
    }

    /// Copies `len` bytes from `src_i` to `dest_i`, one at a time from the
    /// front, and sets the index to the end of the copy.
    pub fn shift_bytes(&mut self, src_i: usize, dest_i: usize, len: usize)
        requires
            Self::well_formed(old(self)@),
            src_i + len <= MAX_MSG_SIZE,
            dest_i + len <= MAX_MSG_SIZE,
        ensures
            final(self)@.data == shifted(old(self)@.data, src_i as int, dest_i as int, len as nat),
            final(self)@.index == dest_i + len,
            Self::well_formed(final(self)@),
    {
        let ghost d0 = self.buffer@;
        let mut i: usize = 0;
        while i < len
            invariant
                i <= len,
                src_i + len <= MAX_MSG_SIZE,
                dest_i + len <= MAX_MSG_SIZE,
                self.buffer@.len() == MAX_MSG_SIZE,
                self.index <= MAX_MSG_SIZE,
                d0.len() == MAX_MSG_SIZE,
                self.buffer@ == shifted(d0, src_i as int, dest_i as int, i as nat),
            decreases len - i,
        {
            proof {
                lemma_shifted_len(d0, src_i as int, dest_i as int, i as nat);
            }
            let b = self.buffer[src_i + i];
            self.buffer.set(dest_i + i, b);
            i += 1;
        }
        self.index = dest_i + len;
    }

    /// Moves the bytes from `src_i` up to the index to the front.
    pub fn shift_bytes_to_start(&mut self, src_i: usize)
        requires
            Self::well_formed(old(self)@),
            src_i <= old(self)@.index,
        ensures
            final(self)@ == spec_shift_to_start(old(self)@, src_i as int),
            Self::well_formed(final(self)@),
    {
        let len = self.index - src_i;
        self.shift_bytes(src_i, 0, len);
    }

    fn get_eol(&self) -> (res: Option<usize>)
        requires
            Self::well_formed(self@),
        ensures
            match res {
                Some(i) => spec_eol(self@) == Some(i as int),
                None => spec_eol(self@) is None,
            },
    {
        if self.index < 2 {
            return None;
        }
        let mut i: usize = 0;
        while i < self.index - 1
            invariant
                self.index >= 2,
                self.index <= MAX_MSG_SIZE,
                self.buffer@.len() == MAX_MSG_SIZE,
                i <= self.index - 1,
                forall|j: int|
                    0 <= j < i ==> !(self.buffer@[j] == 13u8 && #[trigger] self.buffer@[j + 1]
                        == 10u8),
            decreases self.index - 1 - i,
        {
            if self.buffer[i] == 13u8 && self.buffer[i + 1] == 10u8 {
                proof {
                    assert(is_first_crlf(self.buffer@, self.index as int, i as int));
                    lemma_first_crlf_unique(self@, i as int);
                }
                return Some(i);
            }
            i += 1;
        }
        None
    }

    /// Whether the buffer holds a complete line.
    pub fn has_delim(&self) -> (res: bool)
        requires
            Self::well_formed(self@),
        ensures
            res == spec_eol(self@) is Some,
    {
        match self.get_eol() {
            Some(_) => true,
            None => false,
        }
    }

    /// Takes the first complete line out of the buffer, without its CR-LF,
    /// and moves what follows it to the front; a buffer without a complete
    /// line gives the text it holds and stays as it is.
    pub fn extract_ln(&mut self) -> (res: Option<String>)
        requires
            Self::well_formed(old(self)@),
        ensures
            Self::well_formed(final(self)@),
            final(self)@ == spec_extract(old(self)@).1,
            res matches Some(line) && line@ == lossy_utf8(spec_extract(old(self)@).0) && (valid_utf8(
                spec_extract(old(self)@).0,
            ) ==> line@ == decode_utf8(spec_extract(old(self)@).0)),
    {
        match self.get_eol() {
            Some(i) => {
                let out = from_utf8_lossy(slice_subrange(self.buffer.as_slice(), 0, i));
                self.shift_bytes_to_start(i + 2);
                Some(out)
            },
            None => Some(from_utf8_lossy(slice_subrange(self.buffer.as_slice(), 0, self.index))),
        }
    }

    /// Copies the bytes in use to the front of `copy_buf`; returns how many.
    pub fn copy(&self, copy_buf: &mut [u8]) -> (res: usize)
        requires
            Self::well_formed(self@),
            old(copy_buf)@.len() >= self@.index,
        ensures
            res == self@.index,
            final(copy_buf)@ == self@.data.subrange(0, res as int) + old(copy_buf)@.subrange(
                res as int,
                old(copy_buf)@.len() as int,
            ),
    {
        let mut i: usize = 0;
        while i < self.index
            invariant
                i <= self.index,
                self.index <= MAX_MSG_SIZE,
                self.buffer@.len() == MAX_MSG_SIZE,
                copy_buf@.len() == old(copy_buf)@.len(),
                copy_buf@.len() >= self.index,
                copy_buf@ == self.buffer@.subrange(0, i as int) + old(copy_buf)@.subrange(
                    i as int,
                    old(copy_buf)@.len() as int,
                ),
            decreases self.index - i,
        {
            copy_buf[i] = self.buffer[i];
            i += 1;
            assert(copy_buf@ =~= self.buffer@.subrange(0, i as int) + old(copy_buf)@.subrange(
                i as int,
                old(copy_buf)@.len() as int,
            ));
        }
        self.index
    }

    fn put_bytes(&mut self, bytes: &[u8])
        requires
            Self::well_formed(old(self)@),
            bytes@.len() <= MAX_MSG_SIZE - old(self)@.index,
        ensures
            spec_append(old(self)@, bytes@) == Some(final(self)@),
            Self::well_formed(final(self)@),
    {
        let ghost v0 = self@;
        let start = self.index;
        let n = bytes.len();
        let mut i: usize = 0;
        while i < n
            invariant
                i <= n,
                n == bytes@.len(),
                start == v0.index,
                start + n <= MAX_MSG_SIZE,
                self.buffer@.len() == MAX_MSG_SIZE,
                self.index == start,
                v0.data.len() == MAX_MSG_SIZE,
                self.buffer@ == v0.data.subrange(0, start as int) + bytes@.subrange(0, i as int)
                    + v0.data.subrange(start + i, MAX_MSG_SIZE as int),
            decreases n - i,
        {
            self.buffer.set(start + i, bytes[i]);
            i += 1;
            assert(self.buffer@ =~= v0.data.subrange(0, start as int) + bytes@.subrange(0, i as int)
                + v0.data.subrange(start + i, MAX_MSG_SIZE as int));
        }
        assert(bytes@.subrange(0, n as int) =~= bytes@);
        self.index = start + n;
    }

    /// Appends a line and CR-LF, or fails, changing nothing, when they do
    /// not fit.
    pub fn append_ln(&mut self, line: &str) -> (res: Result<(), BufferError>)
        requires
            Self::well_formed(old(self)@),
        ensures
            Self::well_formed(final(self)@),
            match res {
                Ok(()) => spec_append_ln(old(self)@, line@) == Some(final(self)@),
                Err(_) => spec_append_ln(old(self)@, line@) is None && final(self)@ == old(
                    self,
                )@,
            },
    {
        let room = MAX_MSG_SIZE - self.index;
        let bytes = line.as_bytes();
        if room < 2 || bytes.len() > room - 2 {
            return Err(BufferError::Overflow);
        }
        let ghost v0 = self@;
        let r = self.append_str(line);
        let ghost v1 = self@;
        let r2 = self.append_str("\r\n");
        proof {
            lemma_encode_crlf();
            let b = encode_utf8(line@);
            let v = v0.data;
            let s = v0.index as int;
            assert(v1.data =~= v.subrange(0, s) + b + v.subrange(s + b.len(), v.len() as int));
            assert(self@.data =~= v.subrange(0, s) + (b + crlf()) + v.subrange(
                s + b.len() + 2,
                v.len() as int,
            ));
        }
        r2
    }

    /// Appends the bytes of a string, or fails, changing nothing, when they
    /// do not fit.
    pub fn append_str(&mut self, message_string: &str) -> (res: Result<(), BufferError>)
        requires
            Self::well_formed(old(self)@),
        ensures
            Self::well_formed(final(self)@),
            match res {
                Ok(()) => spec_append(old(self)@, encode_utf8(message_string@)) == Some(
                    final(self)@,
                ),
                Err(_) => spec_append(old(self)@, encode_utf8(message_string@)) is None
                    && final(self)@ == old(self)@,
            },
    {
        let bytes = message_string.as_bytes();
        if bytes.len() > MAX_MSG_SIZE - self.index {
            return Err(BufferError::Overflow);
        }
        self.put_bytes(bytes);
        Ok(())
    }

    /// Appends raw bytes, or fails, changing nothing, when they do not fit.
    pub fn append_bytes(&mut self, buf: &[u8]) -> (res: Result<(), BufferError>)
        requires
            Self::well_formed(old(self)@),
        ensures
            Self::well_formed(final(self)@),
            match res {
                Ok(()) => spec_append(old(self)@, buf@) == Some(final(self)@),
                Err(_) => spec_append(old(self)@, buf@) is None && final(self)@ == old(self)@,
            },
    {
        if buf.len() > MAX_MSG_SIZE - self.index {
            return Err(BufferError::Overflow);
        }
        self.put_bytes(buf);
        Ok(())
    }
}

/// The bytes of "\r\n".
proof fn lemma_encode_crlf()
    ensures
        encode_utf8("\r\n"@) == crlf(),
{
    reveal_strlit("\r\n");
    let s = "\r\n"@;
    assert(s =~= seq!['\r', '\n']);
    assert((13u32 & 0x7F) as u8 == 13u8) by (bit_vector);
    assert((10u32 & 0x7F) as u8 == 10u8) by (bit_vector);
    assert(s.drop_first() =~= seq!['\n']);
    assert(seq!['\n'].drop_first() =~= Seq::<char>::empty());
    assert(encode_utf8(Seq::<char>::empty()) =~= Seq::<u8>::empty());
    assert(encode_utf8(seq!['\n']) =~= seq![10u8]);
    assert(encode_utf8(s) =~= crlf());
}

/// No byte of the encoding of a text without CR is a CR.
pub proof fn lemma_encode_no_cr(line: Seq<char>)
    requires
        !line.contains('\r'),
    ensures
        !encode_utf8(line).contains(13u8),
    decreases line.len(),
{
    if line.len() > 0 {
        let c = line[0];
        let rest = line.drop_first();
        if rest.contains('\r') {
            let k = choose|k: int| 0 <= k < rest.len() && rest[k] == '\r';
            assert(line[k + 1] == '\r');
        }
        lemma_encode_no_cr(rest);
        assert(c != '\r');
        let v = c as u32;
        let e = encode_scalar(v);
        assert(!e.contains(13u8)) by {
            if has_width_1_encoding(v) {
                char_u32_cast(c, v);
                assert((13u32 as char) == '\r');
                assert(v != 13u32);
                assert(v <= 0x7F ==> (v & 0x7F) == v) by (bit_vector);
            } else if has_width_2_encoding(v) {
                assert(0xC0u8 | ((v >> 6) & 0x1F) as u8 >= 0xC0u8) by (bit_vector);
                assert(0x80u8 | (v & 0x3F) as u8 >= 0x80u8) by (bit_vector);
            } else if has_width_3_encoding(v) {
                assert(0xE0u8 | ((v >> 12) & 0x0F) as u8 >= 0xE0u8) by (bit_vector);
                assert(0x80u8 | ((v >> 6) & 0x3F) as u8 >= 0x80u8) by (bit_vector);
                assert(0x80u8 | (v & 0x3F) as u8 >= 0x80u8) by (bit_vector);
            } else {
                assert(0xF0u8 | ((v >> 18) & 0x7) as u8 >= 0xF0u8) by (bit_vector);
                assert(0x80u8 | ((v >> 12) & 0x3F) as u8 >= 0x80u8) by (bit_vector);
                assert(0x80u8 | ((v >> 6) & 0x3F) as u8 >= 0x80u8) by (bit_vector);
                assert(0x80u8 | (v & 0x3F) as u8 >= 0x80u8) by (bit_vector);
            }
            if e.contains(13u8) {
                let k = choose|k: int| 0 <= k < e.len() && e[k] == 13u8;
                assert(e[k] == 13u8);
            }
        }
        let all = encode_utf8(line);
        assert(all == e + encode_utf8(rest));
        if all.contains(13u8) {
            let k = choose|k: int| 0 <= k < all.len() && all[k] == 13u8;
            if k < e.len() {
                assert(e[k] == 13u8);
            } else {
                assert(encode_utf8(rest)[k - e.len()] == 13u8);
            }
        }
    }
}

/// A line appended to a buffer whose pending bytes hold no CR comes out as
/// the pending bytes followed by the line, and leaves the buffer empty; the
/// text that comes out of a line without pending bytes is the line itself.
pub proof fn law_extract_appended_line(v: BufferView, line: Seq<char>)
    requires
        MessageBuffer::well_formed(v),
        forall|j: int| 0 <= j < v.index ==> v.data[j] != 13u8,
        !line.contains('\r'),
        spec_append_ln(v, line) is Some,
    ensures
        spec_extract(spec_append_ln(v, line)->0).0 == v.data.subrange(0, v.index as int)
            + encode_utf8(line),
        spec_extract(spec_append_ln(v, line)->0).1.index == 0,
        v.index == 0 ==> decode_utf8(v.data.subrange(0, v.index as int) + encode_utf8(line))
            == line,
{
    let b = encode_utf8(line);
    let w = spec_append_ln(v, line)->0;
    let s = v.index as int;
    lemma_encode_no_cr(line);
    let i = s + b.len();
    assert(w.data == v.data.subrange(0, s) + (b + crlf()) + v.data.subrange(
        s + b.len() + 2,
        v.data.len() as int,
    ));
    assert(w.data[i] == 13u8);
    assert(w.data[i + 1] == 10u8);
    assert forall|j: int| 0 <= j < i implies !(w.data[j] == 13u8 && #[trigger] w.data[j + 1]
        == 10u8) by {
        if j < s {
            assert(w.data[j] == v.data[j]);
        } else {
            assert(w.data[j] == b[j - s]);
            if b[j - s] == 13u8 {
                assert(b.contains(13u8));
            }
        }
    }
    assert(is_first_crlf(w.data, w.index as int, i));
    lemma_first_crlf_unique(w, i);
    assert(w.data.subrange(0, i) =~= v.data.subrange(0, s) + b);
    if v.index == 0 {
        assert(v.data.subrange(0, 0) + b =~= b);
        encode_utf8_decode_utf8(line);
    }
}

proof fn lemma_shifted_len(d: Seq<u8>, src: int, dest: int, k: nat)
    requires
        0 <= src,
        0 <= dest,
        src + k <= d.len(),
        dest + k <= d.len(),
    ensures
        shifted(d, src, dest, k).len() == d.len(),
    decreases k,
{
    if k > 0 {
        lemma_shifted_len(d, src, dest, (k - 1) as nat);
    }
}

proof fn lemma_first_crlf_unique(v: BufferView, i: int)
    requires
        is_first_crlf(v.data, v.index as int, i),
    ensures
        spec_eol(v) == Some(i),
{
    let d = v.data;
    let n = v.index as int;
    assert(exists|k: int| is_first_crlf(d, n, k));
    let j = choose|k: int| is_first_crlf(d, n, k);
    assert(is_first_crlf(d, n, j));
    if j < i {
        assert(!(d[j] == 13u8 && d[j + 1] == 10u8));
    } else if j > i {
        assert(!(d[i] == 13u8 && d[i + 1] == 10u8));
    }
}

} // verus!
