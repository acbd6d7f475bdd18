//! Decoded textures and where they come from.
use vstd::prelude::*;
use crate::farbfeld::{Decoder, Error, HEADER_LEN, magic, be_u32_at};

verus! {

/// Largest texture side, in pixels.
pub const MAX_TEXTURE_SIDE: u32 = 65536;

/// A decoded image: `width * height` pixels of 4 bytes, row by row.
#[derive(Clone, Debug)]
pub struct Texture {
    pub width: u32,
    pub height: u32,
    pub data: Vec<u8>,
}

impl Texture {
    /// The texture has pixels and 4 bytes for each of them.
    pub open spec fn valid(&self) -> bool {
        &&& 1 <= self.width <= MAX_TEXTURE_SIDE
        &&& 1 <= self.height <= MAX_TEXTURE_SIDE
        &&& self.data@.len() == self.width * self.height * 4
    }

    pub fn is_valid(&self) -> (r: bool)
        ensures
            r == self.valid(),
    {
        if self.width < 1 || self.width > MAX_TEXTURE_SIDE || self.height < 1 || self.height
            > MAX_TEXTURE_SIDE {
            return false;
        }
        assert((self.width as u64) * (self.height as u64) <= 0x1_0000_0000u64) by (nonlinear_arith)
            requires
                self.width <= MAX_TEXTURE_SIDE,
                self.height <= MAX_TEXTURE_SIDE,
        ;
        self.data.len() as u64 == (self.width as u64) * (self.height as u64) * 4
    }
}

/// The low byte of each 16-bit channel of the pixel bytes `raw`.
pub open spec fn low_bytes(raw: Seq<u8>) -> Seq<u8> {
    Seq::new(raw.len() / 2, |i: int| raw[2 * i + 1])
}

/// Decodes a farbfeld image into a texture of 8-bit channels, keeping the
/// low byte of each 16-bit channel. The errors are those of reading the
/// header and the pixels.
pub fn load_farbfeld(raw_bin: Vec<u8>) -> (r: Result<Texture, Error>)
    ensures
        raw_bin@.len() < HEADER_LEN ==> r is Err && r->Err_0 is IoError,
        raw_bin@.len() >= HEADER_LEN && raw_bin@.subrange(0, 8) != magic() ==> r is Err
            && r->Err_0 is FormatError,
        ({
            let w = be_u32_at(raw_bin@, 8);
            let h = be_u32_at(raw_bin@, 12);
            raw_bin@.len() >= HEADER_LEN && raw_bin@.subrange(0, 8) == magic() ==> (r is Ok
                <==> HEADER_LEN + h * (w * 8) <= raw_bin@.len()) && (r is Err ==> r->Err_0 is IoError)
        }),
        r matches Ok(t) ==> t.width == be_u32_at(raw_bin@, 8) && t.height == be_u32_at(
            raw_bin@,
            12,
        ) && t.data@ == low_bytes(
            raw_bin@.subrange(HEADER_LEN as int, HEADER_LEN + t.height * (t.width * 8)),
        ),
{
    let mut img = match Decoder::new(raw_bin) {
        Ok(d) => d,
        Err(e) => return Err(e),
    };
    let (w, h) = img.dimensions();
    let image = match img.read_image() {
        Ok(v) => v,
        Err(e) => return Err(e),
    };
    let mut data: Vec<u8> = Vec::new();
    let mut i: usize = 0;
    let len = image.len();
    let n = len / 2;
    while i < n
        invariant
            0 <= i <= n,
            len == image@.len(),
            n == len / 2,
            data@ == low_bytes(image@).subrange(0, i as int),
        decreases n - i,
    {
        data.push(image[2 * i + 1]);
        i = i + 1;
        assert(data@ =~= low_bytes(image@).subrange(0, i as int));
    }
    assert(data@ =~= low_bytes(image@));
    Ok(Texture { width: w, height: h, data })
}

} // verus!
