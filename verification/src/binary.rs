use vstd::prelude::*;

verus! {

/// Offset of the text segment in a MINIX a.out image (the header is 32 bytes).
pub const HEADER_SIZE: usize = 0x20;

/// The header word at `idx` as `fetch4` reads it: the four bytes combined with `|`.
pub open spec fn header_word(image: Seq<u8>, idx: int) -> u32 {
    (image[idx] | image[idx + 1] | image[idx + 2] | image[idx + 3]) as u32
}

/// The text segment: after the header, as long as the header word at 8 says.
pub open spec fn text_fits(image: Seq<u8>) -> bool {
    &&& image.len() >= 12
    &&& HEADER_SIZE + header_word(image, 8) <= image.len()
}

pub open spec fn text_segment(image: Seq<u8>) -> Seq<u8> {
    image.subrange(HEADER_SIZE as int, HEADER_SIZE + header_word(image, 8))
}

/// The data segment: right after the text, as long as the header word at 12 says.
pub open spec fn data_fits(image: Seq<u8>) -> bool {
    &&& image.len() >= 16
    &&& HEADER_SIZE + header_word(image, 8) + header_word(image, 12) <= image.len()
}

pub open spec fn data_segment(image: Seq<u8>) -> Seq<u8> {
    let start = HEADER_SIZE + header_word(image, 8);
    image.subrange(start, start + header_word(image, 12))
}

/// A loaded MINIX a.out image.
pub struct Binary {
    #[allow(dead_code)]
    fname: String,
    aout: Vec<u8>,
}

impl View for Binary {
    type V = Seq<u8>;

    closed spec fn view(&self) -> Seq<u8> {
        self.aout@
    }
}

impl Binary {
    /// The name of the file the image was read from.
    pub closed spec fn name(&self) -> Seq<char> {
        self.fname@
    }

    /// The image `aout` read from the file `fname`.
    pub fn new(fname: &str, aout: Vec<u8>) -> (r: Self)
        ensures
            r@ == aout@,
            r.name() == fname@,
    {
        Binary { fname: String::from_str(fname), aout: aout }
    }

    /// The whole image.
    pub fn image(&self) -> (r: &[u8])
        ensures
            r@ == self@,
    {
        self.aout.as_slice()
    }

    /// Whether the header and the text segment lie within the image.
    pub fn has_text(&self) -> (r: bool)
        ensures
            r == text_fits(self@),
    {
        if self.aout.len() < 12 {
            return false;
        }
        let length = Binary::fetch4(8, self.aout.as_slice());
        length as usize <= self.aout.len() && HEADER_SIZE <= self.aout.len() - length as usize
    }

    /// Whether the header, the text and the data segment lie within the image.
    pub fn has_data(&self) -> (r: bool)
        ensures
            r == data_fits(self@),
    {
        if self.aout.len() < 16 {
            return false;
        }
        let data_len = Binary::fetch4(12, self.aout.as_slice()) as usize;
        let text_len = Binary::fetch4(8, self.aout.as_slice()) as usize;
        text_len <= self.aout.len() && data_len <= self.aout.len() - text_len
            && HEADER_SIZE <= self.aout.len() - text_len - data_len
    }

    /// The text segment.
    pub fn get_text<'a>(&'a self) -> (r: &'a [u8])
        requires
            text_fits(self@),
        ensures
            r@ == text_segment(self@),
    {
        let length = Binary::fetch4(8, self.aout.as_slice());
        let aout = self.aout.as_slice();
        &aout[HEADER_SIZE..HEADER_SIZE + length as usize]
    }

    /// The data segment.
    pub fn get_data(&self) -> (r: &[u8])
        requires
            data_fits(self@),
        ensures
            r@ == data_segment(self@),
    {
        let data_len = Binary::fetch4(12, self.aout.as_slice()) as usize;
        let text_len = Binary::fetch4(8, self.aout.as_slice()) as usize;
        let aout = self.aout.as_slice();
        &aout[HEADER_SIZE + text_len..HEADER_SIZE + text_len + data_len]
    }

    /// Reads the header word at `idx` of `data`: the four bytes at `idx .. idx + 4`
    /// combined with a bitwise or.
    pub fn fetch4(idx: usize, data: &[u8]) -> (r: u32)
        requires
            idx + 3 < data@.len(),
        ensures
            r == header_word(data@, idx as int),
    {
        let v1: u32 = data[idx] as u32;
        let v2: u32 = data[idx + 1] as u32;
        let v3: u32 = data[idx + 2] as u32;
        let v4: u32 = data[idx + 3] as u32;
        let r = v4 | v3 | v2 | v1;
        assert(r == header_word(data@, idx as int)) by {
            let (b1, b2, b3, b4) = (data@[idx as int], data@[idx + 1], data@[idx + 2], data@[idx + 3]);
            assert((b4 as u32 | b3 as u32 | b2 as u32 | b1 as u32) == (b1 | b2 | b3 | b4) as u32) by (bit_vector);
        }
        r
    }
}

/// The data segment starts where the text segment ends: together they are
/// the bytes after the header, as long as the two lengths say.
pub proof fn lemma_segments_adjacent(image: Seq<u8>)
    requires
        data_fits(image),
    ensures
        text_fits(image),
        text_segment(image) + data_segment(image) =~= image.subrange(
            HEADER_SIZE as int,
            HEADER_SIZE + header_word(image, 8) + header_word(image, 12),
        ),
{
}

} // verus!
