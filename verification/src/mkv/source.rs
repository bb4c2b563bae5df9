//! Where bytes come from: a file is read piece by piece, and each piece is
//! asked for by its position and length.

use vstd::prelude::*;
use vstd::string::*;

use crate::ebml::vint::{read_id, read_size};
#[allow(unused_imports)]
use crate::ebml::vint::{id_at, lemma_size_at_bound, size_at};
use crate::text::push_decimal;
#[allow(unused_imports)]
use crate::text::decimal;

verus! {

/// The answers that a file gives: for a position and a length, the bytes there,
/// fewer where the file ends, or why they could not be read.
pub type Source = spec_fn(u64, u64) -> Result<Seq<u8>, Seq<char>>;

/// The text of an answer.
pub open spec fn answer(reply: Result<Vec<u8>, String>) -> Result<Seq<u8>, Seq<char>> {
    match reply {
        Ok(bytes) => Ok(bytes@),
        Err(e) => Err(e@),
    }
}

/// The bytes of a file from `pos` on, `len` of them or as many as there are.
pub open spec fn clipped(file: Seq<u8>, pos: int, len: int) -> Seq<u8> {
    if pos >= file.len() {
        Seq::empty()
    } else if pos + len > file.len() {
        file.subrange(pos, file.len() as int)
    } else {
        file.subrange(pos, pos + len)
    }
}

/// A file that can be read without fault.
pub open spec fn file_source(file: Seq<u8>) -> Source {
    |pos: u64, len: u64| Ok(clipped(file, pos as int, len as int))
}

/// The longest that a file can be: offsets into it are signed words.
pub const MAX_FILE_LEN: u64 = 0x7FFF_FFFF_FFFF_FFFF;

/// How many bytes are asked for to read an element header, which is at most
/// four bytes of ID and eight of size.
pub const HEADER_WINDOW: u64 = 12;

/// The bytes of `image` from `pos` on, `len` of them or as many as there are.
pub fn read_image(image: &[u8], pos: u64, len: u64) -> (r: Vec<u8>)
    ensures
        r@ == clipped(image@, pos as int, len as int),
{
    let n: usize = image.len();
    if pos >= n as u64 {
        return Vec::new();
    }
    let from: usize = pos as usize;
    let to: usize = if len > (n - from) as u64 {
        n
    } else {
        from + len as usize
    };
    vstd::slice::slice_to_vec(vstd::slice::slice_subrange(image, from, to))
}

/// The element header in the bytes that stand at `pos`: ID, payload length and
/// header length.
pub open spec fn header_in(buf: Seq<u8>, pos: u64) -> Result<(u64, u64, u64), Seq<char>> {
    match id_at(buf, 0) {
        None => Err("bad element ID at "@ + decimal(pos as nat)),
        Some((id, id_len)) => match size_at(buf, id_len as int) {
            None => Err("bad element size at "@ + decimal(pos as nat)),
            Some((size, size_len)) => Ok((id, size, (id_len + size_len) as u64)),
        },
    }
}

/// The element header in the answer to a read of [`HEADER_WINDOW`] bytes at
/// `pos`.
pub open spec fn header_of_reply(reply: Result<Seq<u8>, Seq<char>>, pos: u64) -> Result<
    (u64, u64, u64),
    Seq<char>,
> {
    match reply {
        Ok(buf) => header_in(buf, pos),
        Err(e) => Err(e),
    }
}

/// The element header that a source has at `pos`.
#[verifier::opaque]
pub open spec fn header_at(src: Source, pos: u64) -> Result<(u64, u64, u64), Seq<char>> {
    header_of_reply(src(pos, HEADER_WINDOW), pos)
}

/// What a header that was read says of itself.
pub proof fn lemma_header_in(buf: Seq<u8>, pos: u64)
    ensures
        match header_in(buf, pos) {
            Ok((id, size, header_len)) => {
                &&& 2 <= header_len <= 12
                &&& header_len <= buf.len()
                &&& size == crate::ebml::vint::UNKNOWN || size <= crate::ebml::vint::MAX_SIZE
            },
            Err(_) => true,
        },
{
    if let Some((id, id_len)) = id_at(buf, 0) {
        lemma_size_at_bound(buf, id_len as int);
    }
}

/// What a header that a source has says of itself.
pub proof fn lemma_header_at(src: Source, pos: u64)
    ensures
        match header_at(src, pos) {
            Ok((id, size, header_len)) => {
                &&& 2 <= header_len <= 12
                &&& size == crate::ebml::vint::UNKNOWN || size <= crate::ebml::vint::MAX_SIZE
            },
            Err(_) => true,
        },
{
    reveal(header_at);
    if let Ok(buf) = src(pos, HEADER_WINDOW) {
        lemma_header_in(buf, pos);
    }
}

/// The model of a header that was read.
pub open spec fn header_view(r: Result<(u64, u64, u64), String>) -> Result<(u64, u64, u64), Seq<char>> {
    match r {
        Ok(h) => Ok(h),
        Err(e) => Err(e@),
    }
}

/// Reads an element header out of the answer to a read of [`HEADER_WINDOW`]
/// bytes at `pos`. Returns (id, size, header_len).
pub fn read_header(reply: &Result<Vec<u8>, String>, pos: u64) -> (r: Result<(u64, u64, u64), String>)
    ensures
        header_view(r) == header_of_reply(answer(*reply), pos),
        forall|src: Source|
            src(pos, HEADER_WINDOW) == answer(*reply) ==> #[trigger] header_at(src, pos)
                == header_view(r),
        match r {
            Ok((id, size, header_len)) => {
                &&& 2 <= header_len <= 12
                &&& size == crate::ebml::vint::UNKNOWN || size <= crate::ebml::vint::MAX_SIZE
            },
            Err(_) => true,
        },
{
    reveal(header_at);
    match reply {
        Err(e) => Err(e.clone()),
        Ok(buf) => {
            proof {
                lemma_header_in(buf@, pos);
            }
            match read_id(buf, 0) {
                None => {
                    let mut e = "bad element ID at ".to_owned();
                    push_decimal(&mut e, pos);
                    Err(e)
                },
                Some((id, id_len)) => match read_size(buf, id_len) {
                    None => {
                        let mut e = "bad element size at ".to_owned();
                        push_decimal(&mut e, pos);
                        Err(e)
                    },
                    Some((size, size_len)) => {
                        proof {
                            lemma_size_at_bound(buf@, id_len as int);
                        }
                        Ok((id, size, (id_len + size_len) as u64))
                    },
                },
            }
        },
    }
}

} // verus!
