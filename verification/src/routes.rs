//! What the HTTP layer decides on its requests before it touches a file or
//! the store.

use crate::db::Job;
use crate::storage::STORE_FILE_MARK;
use crate::text::{
    contains, contains_text, lemma_texts_push, parse_unsigned, slice_text, split, split_text,
    starts_with, texts, to_chars, trim, trimmed, unsigned_of,
};
use vstd::prelude::*;

verus! {

/// What one end of a byte range reads as: a 64-bit unsigned decimal number.
pub open spec fn bound_of(s: Seq<char>) -> Option<nat> {
    match unsigned_of(s) {
        Some(v) => if v <= u64::MAX {
            Some(v)
        } else {
            None
        },
        None => None,
    }
}

/// The bytes that a `Range` header asks for of a file of `file_size` bytes,
/// first and last. The header reads `bytes=`, a first byte, a dash and a
/// last byte; a first byte left out stands for 0 and a last byte left out
/// for the last byte of the file. `None` for any other header, and for a
/// range that does not lie within the file.
pub open spec fn range_of(range: Seq<char>, file_size: nat) -> Option<(nat, nat)> {
    if !"bytes="@.is_prefix_of(range) {
        None
    } else {
        let parts = split_text(range.skip("bytes="@.len() as int), '-');
        if parts.len() != 2 {
            None
        } else {
            let start = if parts[0].len() == 0 {
                Some(0nat)
            } else {
                bound_of(parts[0])
            };
            let end = if parts[1].len() == 0 {
                if file_size > 0 {
                    Some((file_size - 1) as nat)
                } else {
                    None
                }
            } else {
                bound_of(parts[1])
            };
            match (start, end) {
                (Some(first), Some(last)) => if first > last || last >= file_size {
                    None
                } else {
                    Some((first, last))
                },
                _ => None,
            }
        }
    }
}

/// A pair of 64-bit numbers as natural numbers.
pub open spec fn pair_of(r: Option<(u64, u64)>) -> Option<(nat, nat)> {
    match r {
        Some((a, b)) => Some((a as nat, b as nat)),
        None => None,
    }
}

/// Reads a `Range` header for a file of `file_size` bytes.
pub fn parse_range_header(range: &str, file_size: u64) -> (r: Option<(u64, u64)>)
    ensures
        pair_of(r) == range_of(range@, file_size as nat),
{
    proof {
        reveal_strlit("bytes=");
    }
    if !starts_with(range, "bytes=") {
        return None;
    }
    let chars = to_chars(range);
    let rest = slice_text(range, 6, chars.len());
    proof {
        assert(rest@ =~= range@.skip(6));
    }
    let parts = split(rest.as_str(), '-');
    if parts.len() != 2 {
        return None;
    }
    proof {
        assert(texts(parts@)[0] == parts@[0]@);
        assert(texts(parts@)[1] == parts@[1]@);
    }
    let first_text = to_chars(parts[0].as_str());
    let last_text = to_chars(parts[1].as_str());
    let start: Option<u64> = if first_text.len() == 0 {
        Some(0)
    } else {
        parse_unsigned(parts[0].as_str(), u64::MAX)
    };
    let end: Option<u64> = if last_text.len() == 0 {
        if file_size > 0 {
            Some(file_size - 1)
        } else {
            None
        }
    } else {
        parse_unsigned(parts[1].as_str(), u64::MAX)
    };
    match (start, end) {
        (Some(first), Some(last)) => {
            if first > last || last >= file_size {
                None
            } else {
                Some((first, last))
            }
        },
        _ => None,
    }
}

/// Whether `path` names a file of the job store, which is neither listed,
/// nor counted, nor deleted on request.
pub fn is_store_file(path: &str) -> (r: bool)
    ensures
        r == contains_text(path@, STORE_FILE_MARK@),
{
    contains(path, STORE_FILE_MARK)
}

/// The page of the job history that a request asks for: the page, from 1,
/// and the number of jobs on a page, at least 1, with 1 and 50 where the
/// request leaves them out.
pub open spec fn page_of(page: Option<i64>, limit: Option<i64>) -> (int, int) {
    let p = match page {
        Some(v) => if v < 1 {
            1int
        } else {
            v as int
        },
        None => 1int,
    };
    let l = match limit {
        Some(v) => if v < 1 {
            1int
        } else {
            v as int
        },
        None => 50int,
    };
    (p, l)
}

/// The window of the job history that a request asks for.
#[derive(Clone, Copy, Debug, PartialEq, Eq, Structural)]
pub struct HistoryWindow {
    pub page: i64,
    pub limit: i64,
    pub offset: i64,
}

/// The window of the job history that a request asks for: the page, the
/// number of jobs on a page, and the number of jobs before the page, which
/// is `i64::MAX` where it would be more.
pub fn history_window(page: Option<i64>, limit: Option<i64>) -> (w: HistoryWindow)
    ensures
        (w.page as int, w.limit as int) == page_of(page, limit),
        w.offset == if (w.page - 1) * w.limit > i64::MAX {
            i64::MAX as int
        } else {
            (w.page - 1) * w.limit
        },
{
    let p: i64 = match page {
        Some(v) => if v < 1 {
            1
        } else {
            v
        },
        None => 1,
    };
    let l: i64 = match limit {
        Some(v) => if v < 1 {
            1
        } else {
            v
        },
        None => 50,
    };
    proof {
        assert(0 <= (p - 1) * l <= 0x3fff_ffff_ffff_ffff_0000_0000_0000_0001) by (nonlinear_arith)
            requires
                1 <= p <= 0x7fff_ffff_ffff_ffff,
                1 <= l <= 0x7fff_ffff_ffff_ffff,
        ;
    }
    let wide: i128 = (p as i128 - 1) * (l as i128);
    let offset: i64 = if wide > i64::MAX as i128 {
        i64::MAX
    } else {
        wide as i64
    };
    HistoryWindow { page: p, limit: l, offset }
}

/// The addresses that a submission names: its lines, each without the white
/// space around it, except those that are empty then.
pub open spec fn submitted_urls(text: Seq<char>) -> Seq<Seq<char>> {
    named_lines(split_text(text, '\n'))
}

/// Each of `lines` without the white space around it, except those that are empty then.
pub open spec fn named_lines(lines: Seq<Seq<char>>) -> Seq<Seq<char>>
    decreases lines.len(),
{
    if lines.len() == 0 {
        Seq::<Seq<char>>::empty()
    } else if trimmed(lines.last()).len() == 0 {
        named_lines(lines.drop_last())
    } else {
        named_lines(lines.drop_last()).push(trimmed(lines.last()))
    }
}

/// The addresses that a submission names, in order.
pub fn submission_urls(text: &str) -> (urls: Vec<String>)
    ensures
        texts(urls@) == submitted_urls(text@),
{
    let lines = split(text, '\n');
    let mut urls: Vec<String> = Vec::new();
    let n: usize = lines.len();
    let ghost all = texts(lines@);
    let mut i: usize = 0;
    proof {
        assert(all.take(0) =~= Seq::<Seq<char>>::empty());
        assert(texts(urls@) =~= Seq::<Seq<char>>::empty());
    }
    while i < n
        invariant
            i <= n,
            n == lines.len(),
            all == texts(lines@),
            texts(urls@) == named_lines(all.take(i as int)),
        decreases n - i,
    {
        proof {
            assert(all.take(i + 1).drop_last() =~= all.take(i as int));
            assert(all.take(i + 1).last() == lines@[i as int]@);
        }
        let url = trim(lines[i].as_str());
        let chars = to_chars(url.as_str());
        if chars.len() > 0 {
            let ghost before = urls@;
            urls.push(url);
            proof {
                lemma_texts_push(before, url);
            }
        }
        i = i + 1;
    }
    proof {
        assert(all.take(n as int) =~= all);
    }
    urls
}

/// What becomes of a submitted address.
#[derive(Debug, PartialEq, Eq)]
pub enum Admission {
    /// A job for the address is queued or running: nothing is added.
    AlreadyQueued,
    /// A job for the address is done: nothing is added. The job's
    /// identifier and the time at which it finished are given.
    AlreadyDownloaded(String, Option<i64>),
    /// A new job is added.
    Added,
}

/// Decides what becomes of a submitted address, given whether the store has
/// a queued or running job for it, and the job that was last done for it,
/// if there is one.
pub fn judge_submission(has_active: bool, done: Option<&Job>) -> (admission: Admission)
    ensures
        has_active ==> admission is AlreadyQueued,
        !has_active && done is None ==> admission is Added,
        !has_active ==> (done matches Some(job) ==> (admission matches Admission::AlreadyDownloaded(
            id,
            finished,
        ) && id@ == job.id@ && finished == job.completed_at)),
{
    if has_active {
        Admission::AlreadyQueued
    } else {
        match done {
            Some(job) => Admission::AlreadyDownloaded(job.id.clone(), job.completed_at),
            None => Admission::Added,
        }
    }
}

} // verus!
