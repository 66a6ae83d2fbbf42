use vstd::prelude::*;

use crate::error::YenError;
use crate::text::{chars_of, push_char};

verus! {

/// Where the last path segment of `s[..i]` starts: just after its last `/`.
pub open spec fn segment_start(s: Seq<char>, i: int) -> int
    decreases i,
{
    if i <= 0 {
        0
    } else if s[i - 1] == '/' {
        i
    } else {
        segment_start(s, i - 1)
    }
}

/// The last path segment of `s`: all that follows its last `/`.
pub open spec fn last_segment(s: Seq<char>) -> Seq<char> {
    s.subrange(segment_start(s, s.len() as int), s.len() as int)
}

/// The name of the file that a download from `url` is saved under: the last segment of
/// its path.
pub fn file_name(url: &str) -> (r: String)
    ensures
        r@ == last_segment(url@),
{
    let d = chars_of(url);
    let mut k: usize = d.len();
    while k > 0 && d[k - 1] != '/'
        invariant
            k <= d.len(),
            d@ == url@,
            segment_start(d@, k as int) == segment_start(d@, d.len() as int),
        decreases k,
    {
        k = k - 1;
    }
    let mut r = String::new();
    let mut i: usize = k;
    while i < d.len()
        invariant
            k <= i <= d.len(),
            r@ == d@.subrange(k as int, i as int),
        decreases d.len() - i,
    {
        push_char(&mut r, d[i]);
        assert(d@.subrange(k as int, i + 1) =~= d@.subrange(k as int, i as int).push(d@[i as int]));
        i = i + 1;
    }
    r
}

/// The total size that a download needs: the server must state it.
pub fn required_length(content_length: Option<u64>) -> (r: Result<u64, YenError>)
    ensures
        r == (match content_length {
            Some(n) => Ok(n),
            None => Err(YenError::MissingContentLength),
        }),
{
    match content_length {
        Some(n) => Ok(n),
        None => Err(YenError::MissingContentLength),
    }
}

/// The progress after a chunk of `chunk` bytes: the bytes so far, never beyond `total`.
pub fn advance(downloaded: u64, chunk: u64, total: u64) -> (r: u64)
    ensures
        r as int == if downloaded + chunk <= total {
            downloaded + chunk
        } else {
            total as int
        },
        downloaded <= total ==> downloaded <= r <= total,
{
    if chunk > total || downloaded > total - chunk {
        total
    } else {
        downloaded + chunk
    }
}

} // verus!
