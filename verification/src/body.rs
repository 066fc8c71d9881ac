//! The decisions of a streaming HTTP body: how much of a read it may take,
//! and which media type a file gets.

use vstd::prelude::*;

use crate::media_type::{byte_stream, extension_media_type, plain_view, MediaType};

verus! {

/// How many bytes a read may take from a body of `length` bytes (when known)
/// of which `bytes_read` have been read, into a buffer of `buf_len` bytes:
/// nothing once the length is reached, else at most what remains.
pub open spec fn read_window_spec(length: Option<usize>, bytes_read: usize, buf_len: usize) -> usize {
    match length {
        None => buf_len,
        Some(l) => if l - bytes_read < buf_len {
            (l - bytes_read) as usize
        } else {
            buf_len
        },
    }
}

/// How many bytes a read may take from a body; `0` means the body is done.
pub fn read_window(length: Option<usize>, bytes_read: usize, buf_len: usize) -> (r: usize)
    requires
        length matches Some(l) ==> bytes_read <= l,
    ensures
        r == read_window_spec(length, bytes_read, buf_len),
        r <= buf_len,
        length matches Some(l) ==> bytes_read + r <= l,
{
    match length {
        None => buf_len,
        Some(l) => if l == bytes_read {
            0
        } else if l - bytes_read < buf_len {
            l - bytes_read
        } else {
            buf_len
        },
    }
}

/// The media type of a file: what its first bytes sniff as, else what its
/// extension names, else a byte stream.
pub fn file_media_type(sniffed: Option<MediaType>, extension: Option<&str>) -> (r: MediaType)
    ensures
        match sniffed {
            Some(m) => r@ == m@,
            None => match extension {
                Some(e) => match extension_media_type(e@) {
                    Some(v) => r@ == v,
                    None => r@ == plain_view(
                        seq!['a', 'p', 'p', 'l', 'i', 'c', 'a', 't', 'i', 'o', 'n'],
                        seq!['o', 'c', 't', 'e', 't', '-', 's', 't', 'r', 'e', 'a', 'm'],
                    ),
                },
                None => r@ == plain_view(
                    seq!['a', 'p', 'p', 'l', 'i', 'c', 'a', 't', 'i', 'o', 'n'],
                    seq!['o', 'c', 't', 'e', 't', '-', 's', 't', 'r', 'e', 'a', 'm'],
                ),
            },
        },
{
    match sniffed {
        Some(m) => m,
        None => {
            let guessed = match extension {
                Some(e) => MediaType::from_extension(e),
                None => None,
            };
            match guessed {
                Some(m) => m,
                None => byte_stream(),
            }
        },
    }
}

} // verus!
