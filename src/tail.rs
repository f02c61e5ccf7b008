use vstd::prelude::*;
use crate::lines::{
    complete_len,
    complete_lines,
    decoded_lines,
    lemma_complete_len_bound,
    lemma_lines_of_complete_prefix,
    split_complete_lines,
    texts,
    NEWLINE,
};

verus! {

/// The bytes of a read that count: `chunk` holds the file's bytes from `pos`
/// on, and only those before the observed length `len` are taken. A file no
/// longer than `pos` has nothing new.
pub open spec fn window(pos: nat, len: nat, chunk: Seq<u8>) -> Seq<u8> {
    if len <= pos {
        seq![]
    } else if chunk.len() <= len - pos {
        chunk
    } else {
        chunk.take(len - pos)
    }
}

/// The offset after a read: advanced past the last complete line, no further.
pub open spec fn tail_offset(pos: nat, len: nat, chunk: Seq<u8>) -> nat {
    pos + complete_len(window(pos, len, chunk))
}

/// The lines that a read delivers.
pub open spec fn tail_lines(pos: nat, len: nat, chunk: Seq<u8>) -> Seq<Seq<char>> {
    decoded_lines(window(pos, len, chunk))
}

/// Reads from a cursor at `pos` of a file whose length is now `len`, given
/// `chunk`, the bytes of the file from `pos` on. Returns the complete lines and
/// the new offset; a partial last line is left for the next read.
pub fn tail_read(pos: u64, len: u64, chunk: &[u8]) -> (r: (Vec<String>, u64))
    ensures
        texts(r.0@) == tail_lines(pos as nat, len as nat, chunk@),
        r.1 == tail_offset(pos as nat, len as nat, chunk@),
        pos <= r.1,
        pos <= len ==> r.1 <= len,
{
    if len <= pos {
        proof {
            lemma_lines_of_complete_prefix(Seq::<u8>::empty());
        }
        return (Vec::new(), pos);
    }
    let avail: u64 = len - pos;
    let lines_and_used = if (chunk.len() as u64) <= avail {
        split_complete_lines(chunk)
    } else {
        split_complete_lines(vstd::slice::slice_subrange(chunk, 0, avail as usize))
    };
    let (lines, used) = lines_and_used;
    proof {
        let w = window(pos as nat, len as nat, chunk@);
        assert(chunk@.subrange(0, avail as int) =~= chunk@.take(avail as int));
        lemma_complete_len_bound(w);
    }
    (lines, pos + used as u64)
}

/// The bytes after the last line feed hold no line feed.
proof fn lemma_no_newline_after_complete(b: Seq<u8>)
    ensures
        forall|j: int| complete_len(b) <= j < b.len() ==> b[j] != NEWLINE,
    decreases b.len(),
{
    if b.len() > 0 && b.last() != NEWLINE {
        let p = b.drop_last();
        lemma_no_newline_after_complete(p);
        assert forall|j: int| complete_len(b) <= j < b.len() implies b[j] != NEWLINE by {
            if j < p.len() {
                assert(b[j] == p[j]);
            }
        }
    }
}

/// Bytes without a line feed hold no complete line.
proof fn lemma_no_newline_no_line(b: Seq<u8>)
    requires
        forall|j: int| 0 <= j < b.len() ==> b[j] != NEWLINE,
    ensures
        complete_len(b) == 0,
        complete_lines(b).len() == 0,
    decreases b.len(),
{
    if b.len() > 0 {
        lemma_no_newline_no_line(b.drop_last());
    }
    lemma_lines_of_complete_prefix(b);
    assert(b.take(0) =~= Seq::<u8>::empty());
}

/// A read never moves the offset back, and never past the length it observed
/// when it started within the file.
pub proof fn lemma_offset_monotonic(pos: nat, len: nat, chunk: Seq<u8>)
    ensures
        pos <= tail_offset(pos, len, chunk),
        pos <= len ==> tail_offset(pos, len, chunk) <= len,
{
    lemma_complete_len_bound(window(pos, len, chunk));
}

/// Reading a file twice with no write in between: the second read delivers no
/// line and leaves the offset where the first put it.
pub proof fn lemma_reread_is_empty(file: Seq<u8>, pos: nat)
    requires
        pos <= file.len(),
    ensures
        ({
            let next = tail_offset(pos, file.len(), file.skip(pos as int));
            &&& tail_lines(next, file.len(), file.skip(next as int)).len() == 0
            &&& tail_offset(next, file.len(), file.skip(next as int)) == next
        }),
{
    let len = file.len();
    let w1 = window(pos, len, file.skip(pos as int));
    let k = complete_len(w1);
    lemma_complete_len_bound(w1);
    if pos < len {
        assert(w1 =~= file.skip(pos as int));
    }
    let next = pos + k;
    if next < len {
        let w2 = window(next, len, file.skip(next as int));
        assert(w2 =~= w1.skip(k as int));
        lemma_no_newline_after_complete(w1);
        assert forall|j: int| 0 <= j < w2.len() implies w2[j] != NEWLINE by {
            assert(w2[j] == w1[k + j]);
        }
        lemma_no_newline_no_line(w2);
    } else {
        lemma_no_newline_no_line(Seq::<u8>::empty());
    }
}

} // verus!
