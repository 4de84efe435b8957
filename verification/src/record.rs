//! The record mutator: applies the sequence mutator to one read record and,
//! when position tracking is on, appends the bracketed list of mutated
//! positions to the record's description.

use vstd::prelude::*;
use crate::mutation::{valid_sequence, seq_mutated, diff_list, mutate};

verus! {

/// ASCII space.
pub const BYTE_SPACE: u8 = 32;

/// ASCII comma.
pub const BYTE_COMMA: u8 = 44;

/// ASCII `[`.
pub const BYTE_LBRACKET: u8 = 91;

/// ASCII `]`.
pub const BYTE_RBRACKET: u8 = 93;

/// One sequencing read: identifier, optional free-text description, the
/// base sequence, and the parallel quality string.
pub struct ReadRecord {
    /// The identifier, without the leading marker of the on-disk format.
    pub id: Vec<u8>,
    /// The free-text description, absent when the identifier line holds none.
    pub desc: Option<Vec<u8>>,
    /// The base sequence.
    pub seq: Vec<u8>,
    /// The quality string, parallel to the sequence.
    pub qual: Vec<u8>,
}

/// The decimal digit byte for a value in `0 .. 10`.
pub open spec fn dec_digit_byte(d: int) -> u8 {
    (48 + d) as u8
}

/// The decimal rendering of a non-negative integer as bytes, most
/// significant digit first.
pub open spec fn dec_bytes(n: int) -> Seq<u8>
    decreases n,
{
    if n < 10 {
        seq![dec_digit_byte(n)]
    } else {
        dec_bytes(n / 10).push(dec_digit_byte(n % 10))
    }
}

/// The positions joined by a comma and a space.
pub open spec fn render_items(ps: Seq<usize>) -> Seq<u8>
    decreases ps.len(),
{
    if ps.len() == 0 {
        Seq::<u8>::empty()
    } else if ps.len() == 1 {
        dec_bytes(ps[0] as int)
    } else {
        render_items(ps.drop_last()) + seq![BYTE_COMMA, BYTE_SPACE] + dec_bytes(ps.last() as int)
    }
}

/// The bracketed, comma-separated list of positions.
pub open spec fn render_position_list(ps: Seq<usize>) -> Seq<u8> {
    seq![BYTE_LBRACKET] + render_items(ps) + seq![BYTE_RBRACKET]
}

/// The description of a mutated record when tracking is on: the original
/// description, when there is one, a space, and the rendered position list.
pub open spec fn annotated_desc(desc: Option<Vec<u8>>, ps: Seq<usize>) -> Seq<u8> {
    match desc {
        Some(d) => d@ + seq![BYTE_SPACE] + render_position_list(ps),
        None => render_position_list(ps),
    }
}

/// Appends the decimal rendering of `n`.
fn push_decimal_bytes(v: &mut Vec<u8>, n: usize)
    ensures
        final(v)@ == old(v)@ + dec_bytes(n as int),
    decreases n,
{
    let ghost v0 = v@;
    if n >= 10 {
        push_decimal_bytes(v, n / 10);
    }
    v.push(48 + (n % 10) as u8);
    proof {
        assert(v@ =~= v0 + dec_bytes(n as int));
    }
}

/// Appends one byte vector to another.
fn append_bytes(dst: &mut Vec<u8>, src: &Vec<u8>)
    ensures
        final(dst)@ == old(dst)@ + src@,
{
    let ghost d0 = dst@;
    let mut i: usize = 0;
    while i < src.len()
        invariant
            0 <= i <= src@.len(),
            dst@ == d0 + src@.subrange(0, i as int),
        decreases src@.len() - i,
    {
        dst.push(src[i]);
        proof {
            assert(d0 + src@.subrange(0, i as int) + seq![src@[i as int]]
                =~= d0 + src@.subrange(0, i + 1));
        }
        i += 1;
    }
    proof {
        assert(src@.subrange(0, src@.len() as int) =~= src@);
    }
}

/// Renders the position list as the bracketed, comma-separated text the
/// description carries.
fn render_positions(ps: &Vec<usize>) -> (r: Vec<u8>)
    ensures
        r@ == render_position_list(ps@),
{
    let mut r: Vec<u8> = Vec::new();
    r.push(BYTE_LBRACKET);
    let mut i: usize = 0;
    while i < ps.len()
        invariant
            0 <= i <= ps@.len(),
            r@ == seq![BYTE_LBRACKET] + render_items(ps@.subrange(0, i as int)),
        decreases ps@.len() - i,
    {
        if i > 0 {
            r.push(BYTE_COMMA);
            r.push(BYTE_SPACE);
        }
        push_decimal_bytes(&mut r, ps[i]);
        proof {
            let p1 = ps@.subrange(0, i + 1);
            assert(p1.drop_last() =~= ps@.subrange(0, i as int));
            assert(p1.last() == ps@[i as int]);
            assert(r@ =~= seq![BYTE_LBRACKET] + render_items(p1));
        }
        i += 1;
    }
    r.push(BYTE_RBRACKET);
    proof {
        assert(ps@.subrange(0, ps@.len() as int) =~= ps@);
        assert(r@ =~= render_position_list(ps@));
    }
    r
}

/// Mutates one read record: the identifier and the quality string are kept,
/// the sequence is replaced by the sequence mutator's output, and the
/// description is kept as it is unless tracking is on, in which case the
/// ascending list of mutated positions is appended to it.
pub fn mutate_record(record: ReadRecord, num_mut: usize, save_pos: bool) -> (out: ReadRecord)
    requires
        valid_sequence(record.seq@),
    ensures
        out.id@ == record.id@,
        out.qual@ == record.qual@,
        seq_mutated(record.seq@, num_mut as int, out.seq@),
        valid_sequence(out.seq@),
        !save_pos ==> out.desc == record.desc,
        save_pos ==> out.desc is Some
            && out.desc->0@ == annotated_desc(record.desc, diff_list(record.seq@, out.seq@)),
{
    let ReadRecord { id, desc, seq, qual } = record;
    let (new_seq, positions) = mutate(seq, num_mut, save_pos);
    let new_desc: Option<Vec<u8>> = if save_pos {
        let rendered = render_positions(&positions);
        match desc {
            Some(d) => {
                let mut nd = d;
                nd.push(BYTE_SPACE);
                append_bytes(&mut nd, &rendered);
                proof {
                    assert(nd@ =~= annotated_desc(record.desc, positions@));
                }
                Some(nd)
            },
            None => Some(rendered),
        }
    } else {
        desc
    };
    ReadRecord { id, desc: new_desc, seq: new_seq, qual }
}

} // verus!
