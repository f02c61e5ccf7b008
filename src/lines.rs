use vstd::prelude::*;

verus! {

/// The line feed byte, which ends a line.
pub const NEWLINE: u8 = 10;

/// The carriage return byte, dropped when it comes just before a line feed.
pub const CARRIAGE_RETURN: u8 = 13;

/// Length of the longest prefix of `b` that ends with a line feed
/// (zero when `b` holds none): the bytes that a read may consume.
pub open spec fn complete_len(b: Seq<u8>) -> nat
    decreases b.len(),
{
    if b.len() == 0 {
        0
    } else if b.last() == NEWLINE {
        b.len()
    } else {
        complete_len(b.drop_last())
    }
}

/// A line's bytes without its terminator: a trailing carriage return goes too.
pub open spec fn strip_cr(l: Seq<u8>) -> Seq<u8> {
    if l.len() > 0 && l.last() == CARRIAGE_RETURN {
        l.drop_last()
    } else {
        l
    }
}

/// The complete lines of `b`, in order, each without its terminator. Bytes after
/// the last line feed form no line.
pub open spec fn complete_lines(b: Seq<u8>) -> Seq<Seq<u8>>
    decreases b.len(),
{
    if b.len() == 0 {
        seq![]
    } else if b.last() == NEWLINE {
        let s = complete_len(b.drop_last());
        // `s` never exceeds the prefix's length; the test lets the recursion be
        // seen to end.
        if s <= b.len() - 1 {
            complete_lines(b.take(s as int)).push(strip_cr(b.subrange(s as int, b.len() - 1)))
        } else {
            seq![]
        }
    } else {
        complete_lines(b.drop_last())
    }
}

/// What decoding `b` as UTF-8 gives, each invalid sequence replaced by U+FFFD.
pub uninterp spec fn utf8_lossy(b: Seq<u8>) -> Seq<char>;

/// The text of each complete line of `b`.
pub open spec fn decoded_lines(b: Seq<u8>) -> Seq<Seq<char>> {
    complete_lines(b).map_values(|l: Seq<u8>| utf8_lossy(l))
}

/// The views of a sequence of strings.
pub open spec fn texts(v: Seq<String>) -> Seq<Seq<char>> {
    v.map_values(|s: String| s@)
}

/// Relies on `String::from_utf8_lossy`: its result depends on the bytes alone.
#[verifier::external_body]
fn decode_utf8(b: &[u8]) -> (r: String)
    ensures
        r@ == utf8_lossy(b@),
{
    String::from_utf8_lossy(b).into_owned()
}

pub proof fn lemma_complete_len_bound(b: Seq<u8>)
    ensures
        complete_len(b) <= b.len(),
        complete_len(b) == 0 || b[complete_len(b) - 1] == NEWLINE,
    decreases b.len(),
{
    if b.len() > 0 && b.last() != NEWLINE {
        lemma_complete_len_bound(b.drop_last());
    }
}

/// The lines of a buffer are those of its complete prefix.
pub proof fn lemma_lines_of_complete_prefix(b: Seq<u8>)
    ensures
        complete_lines(b) == complete_lines(b.take(complete_len(b) as int)),
        complete_len(b.take(complete_len(b) as int)) == complete_len(b),
    decreases b.len(),
{
    lemma_complete_len_bound(b);
    if b.len() == 0 {
        assert(b.take(0) =~= b);
    } else if b.last() == NEWLINE {
        assert(b.take(b.len() as int) =~= b);
    } else {
        let p = b.drop_last();
        lemma_lines_of_complete_prefix(p);
        lemma_complete_len_bound(p);
        assert(b.take(complete_len(p) as int) =~= p.take(complete_len(p) as int));
    }
}

/// Splits `chunk` into its complete lines, decoded, and returns them with the
/// number of bytes they span (through the last line feed). Bytes after the last
/// line feed are left for a later read.
pub fn split_complete_lines(chunk: &[u8]) -> (r: (Vec<String>, usize))
    ensures
        r.1 == complete_len(chunk@),
        texts(r.0@) == decoded_lines(chunk@),
{
    let mut out: Vec<String> = Vec::new();
    let mut start: usize = 0;
    let mut i: usize = 0;
    while i < chunk.len()
        invariant
            i <= chunk.len(),
            start <= i,
            start == complete_len(chunk@.take(i as int)),
            texts(out@) == decoded_lines(chunk@.take(start as int)),
        decreases chunk.len() - i,
    {
        let ghost b = chunk@;
        let ghost prev = b.take(i as int);
        let ghost next = b.take(i + 1);
        assert(next.drop_last() =~= prev);
        if chunk[i] == NEWLINE {
            let end: usize = if i > start && chunk[i - 1] == CARRIAGE_RETURN {
                i - 1
            } else {
                i
            };
            let line = decode_utf8(vstd::slice::slice_subrange(chunk, start, end));
            proof {
                lemma_lines_of_complete_prefix(prev);
                assert(next.take(start as int) =~= b.take(start as int));
                assert(prev.take(start as int) =~= b.take(start as int));
                let raw = next.subrange(start as int, i as int);
                assert(strip_cr(raw) =~= b.subrange(start as int, end as int));
                assert(complete_lines(next) == complete_lines(b.take(start as int)).push(strip_cr(raw)));
            }
            let ghost before = out@;
            out.push(line);
            proof {
                let raw = next.subrange(start as int, i as int);
                let lines_before = complete_lines(b.take(start as int));
                assert(complete_lines(next) == lines_before.push(strip_cr(raw)));
                assert(decoded_lines(next) =~= decoded_lines(b.take(start as int)).push(
                    utf8_lossy(strip_cr(raw)),
                ));
                assert(texts(out@) =~= texts(before).push(line@));
            }
            start = i + 1;
        }
        i = i + 1;
    }
    proof {
        assert(chunk@.take(i as int) =~= chunk@);
        lemma_lines_of_complete_prefix(chunk@);
    }
    (out, start)
}

} // verus!
