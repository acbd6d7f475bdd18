//! The farbfeld image format: the magic `farbfeld`, the width and the height
//! as big-endian 32-bit integers, then 8 bytes (four big-endian 16-bit
//! channels) per pixel, row by row.
use vstd::prelude::*;

verus! {

/// Length of a farbfeld header: magic, width, height.
pub const HEADER_LEN: u64 = 16;

/// The magic bytes that open every farbfeld image.
pub open spec fn magic() -> Seq<u8> {
    seq![102u8, 97u8, 114u8, 98u8, 102u8, 101u8, 108u8, 100u8]
}

/// The big-endian value of the four bytes of `b` that start at `at`.
pub open spec fn be_u32_at(b: Seq<u8>, at: int) -> int {
    b[at] as int * 16777216 + b[at + 1] as int * 65536 + b[at + 2] as int * 256 + b[at + 3] as int
}

/// The four big-endian bytes of `v`.
pub open spec fn be_bytes(v: u32) -> Seq<u8> {
    seq![
        (v / 16777216) as u8,
        ((v / 65536) % 256) as u8,
        ((v / 256) % 256) as u8,
        (v % 256) as u8,
    ]
}

/// The encoding of an image: header, then the pixel bytes as given.
pub open spec fn encoding(width: u32, height: u32, data: Seq<u8>) -> Seq<u8> {
    magic() + be_bytes(width) + be_bytes(height) + data
}

proof fn lemma_be_bytes(v: u32)
    ensures
        be_bytes(v).len() == 4,
        be_u32_at(be_bytes(v), 0) == v,
{
    let a0 = v / 16777216;
    let r0 = v % 16777216;
    let a1 = r0 / 65536;
    let r1 = r0 % 65536;
    let a2 = r1 / 256;
    let a3 = r1 % 256;
    assert(v == a0 * 16777216 + r0);
    assert(r0 == a1 * 65536 + r1);
    assert(r1 == a2 * 256 + a3);
    assert((v / 65536) % 256 == a1) by (nonlinear_arith)
        requires
            v == a0 * 16777216 + a1 * 65536 + r1,
            0 <= r1 < 65536,
            0 <= a1 < 256,
            0 <= a0,
    {
        assert(v / 65536 == a0 * 256 + a1) by (nonlinear_arith)
            requires
                v == a0 * 16777216 + a1 * 65536 + r1,
                0 <= r1 < 65536,
                0 <= a1 < 256,
                0 <= a0,
        ;
    }
    assert((v / 256) % 256 == a2) by (nonlinear_arith)
        requires
            v == (a0 * 65536 + a1 * 256) * 256 + a2 * 256 + a3,
            0 <= a3 < 256,
            0 <= a2 < 256,
            0 <= a0,
            0 <= a1,
    {
        assert(v / 256 == (a0 * 65536 + a1 * 256) + a2) by (nonlinear_arith)
            requires
                v == (a0 * 65536 + a1 * 256) * 256 + a2 * 256 + a3,
                0 <= a3 < 256,
                0 <= a2 < 256,
        ;
    }
    assert(v % 256 == a3) by (nonlinear_arith)
        requires
            v == (a0 * 65536 + a1 * 256 + a2) * 256 + a3,
            0 <= a3 < 256,
            0 <= a0,
            0 <= a1,
            0 <= a2,
    ;
}

/// Encoding an image and decoding the result gives back its width, its
/// height and its pixel bytes: the bytes open with the magic, hold the width
/// and the height, and then the pixels, 8 bytes per pixel.
pub proof fn lemma_round_trip(width: u32, height: u32, data: Seq<u8>)
    requires
        data.len() == width * height * 8,
    ensures
        encoding(width, height, data).len() >= HEADER_LEN,
        encoding(width, height, data).subrange(0, 8) == magic(),
        be_u32_at(encoding(width, height, data), 8) == width,
        be_u32_at(encoding(width, height, data), 12) == height,
        HEADER_LEN + height * (width * 8) <= encoding(width, height, data).len(),
        encoding(width, height, data).subrange(
            HEADER_LEN as int,
            HEADER_LEN + height * (width * 8),
        ) == data,
{
    let e = encoding(width, height, data);
    lemma_be_bytes(width);
    lemma_be_bytes(height);
    assert(height * (width * 8) == width * height * 8) by (nonlinear_arith);
    assert(e.subrange(0, 8) =~= magic());
    assert(e.subrange(16, 16 + data.len() as int) =~= data);
    assert(be_u32_at(e, 8) == be_u32_at(be_bytes(width), 0));
    assert(be_u32_at(e, 12) == be_u32_at(be_bytes(height), 0));
}

/// Why an image could not be decoded or encoded.
#[derive(Debug)]
pub enum Error {
    /// The image is not formatted properly.
    FormatError(String),
    /// Not enough data was provided to encode the image.
    NotEnoughData,
    /// The input ended before the bytes that were asked for.
    IoError(std::io::Error),
    /// The end of the image has been reached.
    ImageEnd,
}

impl Error {
    /// A short name of the kind of error.
    pub fn description(&self) -> (r: &'static str)
        ensures
            self is FormatError ==> r@ == "Format error"@,
            self is NotEnoughData ==> r@ == "Not enough data"@,
            self is IoError ==> r@ == "IO error"@,
            self is ImageEnd ==> r@ == "Image end"@,
    {
        match self {
            Error::FormatError(_) => "Format error",
            Error::NotEnoughData => "Not enough data",
            Error::IoError(_) => "IO error",
            Error::ImageEnd => "Image end",
        }
    }

    /// The input error behind this one, for `IoError`.
    pub fn cause(&self) -> (r: Option<&std::io::Error>)
        ensures
            r is Some <==> self is IoError,
            self matches Error::IoError(e) ==> r is Some && *r->Some_0 == e,
    {
        match self {
            Error::IoError(e) => Some(e),
            _ => None,
        }
    }
}

#[verifier::external_type_specification]
#[verifier::external_body]
pub struct ExIoError(std::io::Error);

/// Relies on std::io::Error::from: an error of kind `UnexpectedEof`, for
/// input that ends too early.
#[verifier::external_body]
fn unexpected_eof() -> std::io::Error {
    std::io::Error::from(std::io::ErrorKind::UnexpectedEof)
}

fn be_u32(b: &[u8], at: usize) -> (r: u32)
    requires
        at + 4 <= b@.len(),
    ensures
        r as int == be_u32_at(b@, at as int),
{
    (b[at] as u32) * 16777216 + (b[at + 1] as u32) * 65536 + (b[at + 2] as u32) * 256 + (
    b[at + 3] as u32)
}

fn push_be_u32(out: &mut Vec<u8>, v: u32)
    ensures
        final(out)@ == old(out)@ + be_bytes(v),
{
    out.push((v / 16777216) as u8);
    out.push(((v / 65536) % 256) as u8);
    out.push(((v / 256) % 256) as u8);
    out.push((v % 256) as u8);
    assert(final(out)@ =~= old(out)@ + be_bytes(v));
}

/// A decoder over the bytes of a farbfeld image whose header has been read.
#[derive(Debug)]
pub struct Decoder {
    data: Vec<u8>,
    width: u32,
    height: u32,
}

impl Decoder {
    /// The bytes decoded from.
    pub closed spec fn bytes(&self) -> Seq<u8> {
        self.data@
    }

    pub closed spec fn spec_width(&self) -> u32 {
        self.width
    }

    pub closed spec fn spec_height(&self) -> u32 {
        self.height
    }

    /// Reads the header of `bytes`: `IoError` where they are shorter than a
    /// header, `FormatError` where they do not open with the magic.
    pub fn new(bytes: Vec<u8>) -> (r: Result<Decoder, Error>)
        ensures
            bytes@.len() < HEADER_LEN ==> r is Err && r->Err_0 is IoError,
            bytes@.len() >= HEADER_LEN && bytes@.subrange(0, 8) != magic() ==> r is Err
                && r->Err_0 is FormatError,
            bytes@.len() >= HEADER_LEN && bytes@.subrange(0, 8) == magic() ==> r is Ok
                && r->Ok_0.bytes() == bytes@ && r->Ok_0.spec_width() as int == be_u32_at(
                bytes@,
                8,
            ) && r->Ok_0.spec_height() as int == be_u32_at(bytes@, 12),
    {
        if bytes.len() < 16 {
            return Err(Error::IoError(unexpected_eof()));
        }
        let mut i: usize = 0;
        let m: [u8; 8] = [102u8, 97u8, 114u8, 98u8, 102u8, 101u8, 108u8, 100u8];
        let mut same = true;
        while i < 8
            invariant
                0 <= i <= 8,
                bytes@.len() >= 16,
                m@ == magic(),
                same <==> (forall|j: int| 0 <= j < i ==> bytes@[j] == magic()[j]),
            decreases 8 - i,
        {
            if bytes[i] != m[i] {
                same = false;
            }
            i = i + 1;
        }
        if !same {
            assert(bytes@.subrange(0, 8) != magic()) by {
                let j = choose|j: int| 0 <= j < 8 && bytes@[j] != magic()[j];
                assert(bytes@.subrange(0, 8)[j] != magic()[j]);
            }
            return Err(Error::FormatError(String::from_str("unexpected magic number")));
        }
        assert(bytes@.subrange(0, 8) =~= magic());
        let width = be_u32(bytes.as_slice(), 8);
        let height = be_u32(bytes.as_slice(), 12);
        Ok(Decoder { data: bytes, width, height })
    }


    /// Returns the `(width, height)` of the image.
    pub fn dimensions(&self) -> (r: (u32, u32))
        ensures
            r == (self.spec_width(), self.spec_height()),
    {
        (self.width, self.height)
    }

    /// Returns the length in bytes of a row: 8 bytes per pixel.
    pub fn row_len(&self) -> (r: u64)
        ensures
            r == self.spec_width() * 8,
    {
        self.width as u64 * 8
    }

    /// Copies row `row` into the front of `buf` and returns its length.
    /// `ImageEnd` where `row` is past the height; `IoError` where the bytes
    /// end before the row does.
    pub fn read_row(&mut self, row: u32, buf: &mut Vec<u8>) -> (r: Result<usize, Error>)
        requires
            old(buf)@.len() >= old(self).spec_width() * 8,
        ensures
            *final(self) == *old(self),
            row > old(self).spec_height() ==> r is Err && r->Err_0 is ImageEnd && final(buf)@
                == old(buf)@,
            row <= old(self).spec_height() && HEADER_LEN + (row + 1) * (old(self).spec_width()
                * 8) > old(self).bytes().len() ==> r is Err && r->Err_0 is IoError && final(
                buf)@ == old(buf)@,
            row <= old(self).spec_height() && HEADER_LEN + (row + 1) * (old(self).spec_width()
                * 8) <= old(self).bytes().len() ==> r is Ok && r->Ok_0 == old(self).spec_width()
                * 8 && final(buf)@ == old(self).bytes().subrange(
                HEADER_LEN + row * (old(self).spec_width() * 8),
                HEADER_LEN + (row + 1) * (old(self).spec_width() * 8),
            ) + old(buf)@.subrange(old(self).spec_width() * 8, old(buf)@.len() as int),
    {
        if row > self.height {
            return Err(Error::ImageEnd);
        }
        let row_len64 = self.row_len();
        assert((row as u128) * (row_len64 as u128) <= 0x1_0000_0000u128 * 0x8_0000_0000u128)
            by (nonlinear_arith)
            requires
                row <= 0xffff_ffffu32,
                row_len64 <= 0x8_0000_0000u64,
        ;
        let offset: u128 = 16u128 + (row as u128) * (row_len64 as u128);
        assert(offset + row_len64 == HEADER_LEN + (row + 1) * (self.width * 8)) by (nonlinear_arith)
            requires
                offset == 16 + row * row_len64,
                row_len64 == self.width * 8,
        ;
        if offset + (row_len64 as u128) > self.data.len() as u128 {
            return Err(Error::IoError(unexpected_eof()));
        }
        let start = offset as usize;
        let row_len = row_len64 as usize;
        let ghost old_buf = buf@;
        let n = self.data.len();
        let mut i: usize = 0;
        while i < row_len
            invariant
                0 <= i <= row_len,
                row_len == self.spec_width() * 8,
                start + row_len <= n,
                n == self.data@.len(),
                buf@.len() == old_buf.len(),
                old_buf.len() >= row_len,
                forall|j: int| 0 <= j < i ==> buf@[j] == self.data@[start + j],
                forall|j: int| i <= j < old_buf.len() ==> buf@[j] == old_buf[j],
            decreases row_len - i,
        {
            let v = self.data[start + i];
            buf.set(i, v);
            i = i + 1;
        }
        assert(buf@ =~= self.data@.subrange(start as int, start + row_len) + old_buf.subrange(
            row_len as int,
            old_buf.len() as int,
        ));
        Ok(row_len)
    }

    /// Returns the pixel bytes of the whole image: `IoError` where the bytes
    /// end before `height` rows.
    pub fn read_image(&mut self) -> (r: Result<Vec<u8>, Error>)
        ensures
            *final(self) == *old(self),
            HEADER_LEN + old(self).spec_height() * (old(self).spec_width() * 8) > old(
                self,
            ).bytes().len() ==> r is Err && r->Err_0 is IoError,
            HEADER_LEN + old(self).spec_height() * (old(self).spec_width() * 8) <= old(
                self,
            ).bytes().len() ==> r is Ok && r->Ok_0@ == old(self).bytes().subrange(
                HEADER_LEN as int,
                HEADER_LEN + old(self).spec_height() * (old(self).spec_width() * 8),
            ),
    {
        let row_len = self.row_len();
        assert((self.height as u128) * (row_len as u128) <= 0x1_0000_0000u128 * 0x8_0000_0000u128)
            by (nonlinear_arith)
            requires
                self.height <= 0xffff_ffffu32,
                row_len <= 0x8_0000_0000u64,
        ;
        let total: u128 = (self.height as u128) * (row_len as u128);
        if 16u128 + total > self.data.len() as u128 {
            return Err(Error::IoError(unexpected_eof()));
        }
        let end = 16 + total as usize;
        let mut out: Vec<u8> = Vec::new();
        let mut i: usize = 16;
        while i < end
            invariant
                16 <= i <= end,
                end <= self.data@.len(),
                out@ == self.data@.subrange(16, i as int),
            decreases end - i,
        {
            out.push(self.data[i]);
            i = i + 1;
            assert(out@ =~= self.data@.subrange(16, i as int));
        }
        Ok(out)
    }
}

/// An encoder that appends farbfeld images to the bytes it holds.
#[derive(Debug)]
pub struct Encoder(pub Vec<u8>);

impl Encoder {
    /// Appends the encoding of an image of `width` by `height` pixels with the
    /// pixel bytes `data`, and returns all the bytes. `NotEnoughData` where
    /// `data` holds fewer than 4 bytes per pixel.
    pub fn encode(self, width: u32, height: u32, data: &[u8]) -> (r: Result<Vec<u8>, Error>)
        ensures
            data@.len() < width * height * 4 ==> r is Err && r->Err_0 is NotEnoughData,
            data@.len() >= width * height * 4 ==> r is Ok && r->Ok_0@ == self.0@ + encoding(
                width,
                height,
                data@,
            ),
    {
        let mut w = self.0;
        assert((width as u128) * (height as u128) <= 0x1_0000_0000u128 * 0x1_0000_0000u128)
            by (nonlinear_arith)
            requires
                width <= 0xffff_ffffu32,
                height <= 0xffff_ffffu32,
        ;
        let len: u128 = (width as u128) * (height as u128) * 4;
        if (data.len() as u128) < len {
            return Err(Error::NotEnoughData);
        }
        let ghost start = w@;
        let m: [u8; 8] = [102u8, 97u8, 114u8, 98u8, 102u8, 101u8, 108u8, 100u8];
        let mut i: usize = 0;
        while i < 8
            invariant
                0 <= i <= 8,
                m@ == magic(),
                w@ == start + magic().subrange(0, i as int),
            decreases 8 - i,
        {
            w.push(m[i]);
            i = i + 1;
            assert(w@ =~= start + magic().subrange(0, i as int));
        }
        assert(magic().subrange(0, 8) =~= magic());
        push_be_u32(&mut w, width);
        push_be_u32(&mut w, height);
        let ghost head = w@;
        let mut k: usize = 0;
        while k < data.len()
            invariant
                0 <= k <= data@.len(),
                w@ == head + data@.subrange(0, k as int),
            decreases data@.len() - k,
        {
            w.push(data[k]);
            k = k + 1;
            assert(w@ =~= head + data@.subrange(0, k as int));
        }
        assert(data@.subrange(0, data@.len() as int) =~= data@);
        assert(w@ =~= start + encoding(width, height, data@));
        Ok(w)
    }
}

} // verus!
