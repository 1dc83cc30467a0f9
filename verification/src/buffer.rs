//! Reading and writing network data at an offset in a buffer, with the
//! variable-length integers of QUIC.

use vstd::prelude::*;

use crate::error::{ErrorView, PsqError};

verus! {

/// The error that the `octets` crate reports for a buffer that ends too early.
#[verifier::external_type_specification]
#[verifier::external_body]
pub struct ExBufferTooShortError(octets::BufferTooShortError);

/// How many bytes a variable-length integer takes, told by its first byte.
pub open spec fn varint_size(first: u8) -> nat {
    if first < 0x40 {
        1
    } else if first < 0x80 {
        2
    } else if first < 0xc0 {
        4
    } else {
        8
    }
}

/// The first number that a variable-length integer of `size` bytes cannot hold.
pub open spec fn varint_limit(size: nat) -> nat {
    if size == 1 {
        0x40
    } else if size == 2 {
        0x4000
    } else if size == 4 {
        0x4000_0000
    } else {
        0x4000_0000_0000_0000
    }
}

/// The two high bits that mark a variable-length integer of `size` bytes.
pub open spec fn varint_mark(size: nat) -> u8 {
    if size == 1 {
        0
    } else if size == 2 {
        0x40
    } else if size == 4 {
        0x80
    } else {
        0xc0
    }
}

/// The variable-length integer at `off`, with the offset behind it.
pub open spec fn varint_at(buf: Seq<u8>, off: int) -> Option<(nat, int)> {
    if off >= buf.len() {
        None
    } else {
        let size = varint_size(buf[off]);
        if off + size > buf.len() {
            None
        } else {
            Some(
                (
                    crate::bigendian::be_value(buf.subrange(off, off + size)) % varint_limit(size),
                    off + size,
                ),
            )
        }
    }
}

/// The bytes of a variable-length integer written with `size` bytes: the low
/// bytes of the number, the mark set in the first of them.
pub open spec fn varint_bytes(v: nat, size: nat) -> Seq<u8> {
    let low = crate::bigendian::be_bytes(v, size);
    low.update(0, low[0] | varint_mark(size))
}

/// Calls `octets::Octets::get_u8` at `off`: the byte there, and the offset
/// behind it; an error exactly if the buffer ends before it.
#[verifier::external_body]
fn octets_get_u8(buf: &[u8], off: usize) -> (r: Result<(u8, usize), octets::BufferTooShortError>)
    requires
        off <= buf@.len(),
    ensures
        r is Ok <==> off + 1 <= buf@.len(),
        r matches Ok((v, next)) ==> v == buf@[off as int] && next == off + 1,
{
    let mut o = octets::Octets::with_slice(buf);
    o.skip(off)?;
    let v = o.get_u8()?;
    Ok((v, o.off()))
}

/// Calls `octets::Octets::get_u16` at `off`: the big-endian number in the two
/// bytes there, and the offset behind them; an error exactly if the buffer
/// ends before that.
#[verifier::external_body]
fn octets_get_u16(buf: &[u8], off: usize) -> (r: Result<
    (u16, usize),
    octets::BufferTooShortError,
>)
    requires
        off <= buf@.len(),
    ensures
        r is Ok <==> off + 2 <= buf@.len(),
        r matches Ok((v, next)) ==> v == buf@[off as int] * 256 + buf@[off + 1] && next == off + 2,
{
    let mut o = octets::Octets::with_slice(buf);
    o.skip(off)?;
    let v = o.get_u16()?;
    Ok((v, o.off()))
}

/// Calls `octets::Octets::get_varint` at `off`: the variable-length integer
/// there, and the offset behind it; an error exactly if the buffer ends before
/// that.
#[verifier::external_body]
fn octets_get_varint(buf: &[u8], off: usize) -> (r: Result<
    (u64, usize),
    octets::BufferTooShortError,
>)
    requires
        off <= buf@.len(),
    ensures
        r is Ok <==> varint_at(buf@, off as int) is Some,
        r matches Ok((v, next)) ==> varint_at(buf@, off as int) == Some((v as nat, next as int)),
{
    let mut o = octets::Octets::with_slice(buf);
    o.skip(off)?;
    let v = o.get_varint()?;
    Ok((v, o.off()))
}

/// Calls `octets::Octets::skip` at `off`: the offset `len` further on; an error
/// exactly if that is behind the end of the buffer.
#[verifier::external_body]
fn octets_skip(buf: &[u8], off: usize, len: usize) -> (r: Result<
    usize,
    octets::BufferTooShortError,
>)
    requires
        off <= buf@.len(),
    ensures
        r is Ok <==> off + len <= buf@.len(),
        r matches Ok(next) ==> next == off + len,
{
    let mut o = octets::Octets::with_slice(buf);
    o.skip(off)?;
    o.skip(len)?;
    Ok(o.off())
}

/// Calls `octets::OctetsMut::put_u8` at `off`: writes the byte there and gives
/// the offset behind it; an error, with nothing written, exactly if there is no
/// room.
#[verifier::external_body]
fn octets_put_u8(buf: &mut Vec<u8>, off: usize, v: u8) -> (r: Result<
    usize,
    octets::BufferTooShortError,
>)
    requires
        off <= old(buf)@.len(),
    ensures
        r is Ok <==> off + 1 <= old(buf)@.len(),
        r matches Ok(next) ==> next == off + 1 && final(buf)@ == crate::bigendian::splice(
            old(buf)@,
            off as int,
            seq![v],
        ),
        r is Err ==> final(buf)@ == old(buf)@,
{
    let mut o = octets::OctetsMut::with_slice(buf.as_mut_slice());
    o.skip(off)?;
    o.put_u8(v)?;
    Ok(o.off())
}

/// Calls `octets::OctetsMut::put_bytes` at `off`: writes the bytes there and
/// gives the offset behind them; an error, with nothing written, exactly if
/// there is no room for all of them.
#[verifier::external_body]
fn octets_put_bytes(buf: &mut Vec<u8>, off: usize, v: &[u8]) -> (r: Result<
    usize,
    octets::BufferTooShortError,
>)
    requires
        off <= old(buf)@.len(),
    ensures
        r is Ok <==> off + v@.len() <= old(buf)@.len(),
        r matches Ok(next) ==> next == off + v@.len() && final(buf)@ == crate::bigendian::splice(
            old(buf)@,
            off as int,
            v@,
        ),
        r is Err ==> final(buf)@ == old(buf)@,
{
    let mut o = octets::OctetsMut::with_slice(buf.as_mut_slice());
    o.skip(off)?;
    o.put_bytes(v)?;
    Ok(o.off())
}

/// Calls `octets::OctetsMut::put_varint_with_len` at `off`: writes the number
/// with `size` bytes and gives the offset behind them; an error, with nothing
/// written, exactly if there is no room. A number too large for `size` bytes
/// loses its high bytes.
#[verifier::external_body]
fn octets_put_varint_with_len(buf: &mut Vec<u8>, off: usize, v: u64, size: usize) -> (r: Result<
    usize,
    octets::BufferTooShortError,
>)
    requires
        off <= old(buf)@.len(),
        size == 1 || size == 2 || size == 4 || size == 8,
    ensures
        r is Ok <==> off + size <= old(buf)@.len(),
        r matches Ok(next) ==> next == off + size && final(buf)@ == crate::bigendian::splice(
            old(buf)@,
            off as int,
            varint_bytes(v as nat, size as nat),
        ),
        r is Err ==> final(buf)@ == old(buf)@,
{
    let mut o = octets::OctetsMut::with_slice(buf.as_mut_slice());
    o.skip(off)?;
    o.put_varint_with_len(v, size)?;
    Ok(o.off())
}

/// A buffer that is read from front to back.
pub struct Reader<'a> {
    /// The whole buffer.
    pub buf: &'a [u8],
    /// The offset of the next byte to read.
    pub off: usize,
}

impl<'a> Reader<'a> {
    /// The offset lies in the buffer or just behind it.
    pub open spec fn wf(self) -> bool {
        self.off <= self.buf@.len()
    }

    /// A reader at the start of a buffer.
    pub fn with_slice(buf: &'a [u8]) -> (r: Reader<'a>)
        ensures
            r.wf(),
            r.buf@ == buf@,
            r.off == 0,
    {
        Reader { buf, off: 0 }
    }

    /// Reads one byte.
    pub fn get_u8(&mut self) -> (r: Result<u8, PsqError>)
        requires
            old(self).wf(),
        ensures
            final(self).wf(),
            final(self).buf@ == old(self).buf@,
            match r {
                Ok(v) => {
                    &&& old(self).off + 1 <= old(self).buf@.len()
                    &&& v == old(self).buf@[old(self).off as int]
                    &&& final(self).off == old(self).off + 1
                },
                Err(e) => {
                    &&& old(self).off + 1 > old(self).buf@.len()
                    &&& e@ == ErrorView::Octets
                    &&& final(self).off == old(self).off
                },
            },
    {
        match octets_get_u8(self.buf, self.off) {
            Ok((v, next)) => {
                self.off = next;
                Ok(v)
            },
            Err(_) => Err(PsqError::Octets),
        }
    }

    /// Reads two bytes as a big-endian number.
    pub fn get_u16(&mut self) -> (r: Result<u16, PsqError>)
        requires
            old(self).wf(),
        ensures
            final(self).wf(),
            final(self).buf@ == old(self).buf@,
            match r {
                Ok(v) => {
                    &&& old(self).off + 2 <= old(self).buf@.len()
                    &&& v == old(self).buf@[old(self).off as int] * 256
                        + old(self).buf@[old(self).off + 1]
                    &&& final(self).off == old(self).off + 2
                },
                Err(e) => {
                    &&& old(self).off + 2 > old(self).buf@.len()
                    &&& e@ == ErrorView::Octets
                    &&& final(self).off == old(self).off
                },
            },
    {
        match octets_get_u16(self.buf, self.off) {
            Ok((v, next)) => {
                self.off = next;
                Ok(v)
            },
            Err(_) => Err(PsqError::Octets),
        }
    }

    /// Reads a variable-length integer.
    pub fn get_varint(&mut self) -> (r: Result<u64, PsqError>)
        requires
            old(self).wf(),
        ensures
            final(self).wf(),
            final(self).buf@ == old(self).buf@,
            match r {
                Ok(v) => varint_at(old(self).buf@, old(self).off as int) == Some(
                    (v as nat, final(self).off as int),
                ),
                Err(e) => {
                    &&& varint_at(old(self).buf@, old(self).off as int) is None
                    &&& e@ == ErrorView::Octets
                    &&& final(self).off == old(self).off
                },
            },
    {
        match octets_get_varint(self.buf, self.off) {
            Ok((v, next)) => {
                self.off = next;
                Ok(v)
            },
            Err(_) => Err(PsqError::Octets),
        }
    }

    /// Passes over `len` bytes.
    pub fn skip(&mut self, len: usize) -> (r: Result<(), PsqError>)
        requires
            old(self).wf(),
        ensures
            final(self).wf(),
            final(self).buf@ == old(self).buf@,
            match r {
                Ok(()) => {
                    &&& old(self).off + len <= old(self).buf@.len()
                    &&& final(self).off == old(self).off + len
                },
                Err(e) => {
                    &&& old(self).off + len > old(self).buf@.len()
                    &&& e@ == ErrorView::Octets
                    &&& final(self).off == old(self).off
                },
            },
    {
        match octets_skip(self.buf, self.off, len) {
            Ok(next) => {
                self.off = next;
                Ok(())
            },
            Err(_) => Err(PsqError::Octets),
        }
    }
}

/// Writes pieces of data one after the other, each if there is room for it, and
/// stops at the first for which there is none. The result is the buffer, and
/// the offset behind what was written if all of it was.
pub open spec fn put_all(buf: Seq<u8>, off: int, pieces: Seq<Seq<u8>>) -> (Seq<u8>, Option<int>)
    decreases pieces.len(),
{
    if pieces.len() == 0 {
        (buf, Some(off))
    } else if off + pieces[0].len() <= buf.len() {
        put_all(
            crate::bigendian::splice(buf, off, pieces[0]),
            off + pieces[0].len(),
            pieces.drop_first(),
        )
    } else {
        (buf, None)
    }
}

/// Pieces of data one after the other.
pub open spec fn joined(pieces: Seq<Seq<u8>>) -> Seq<u8>
    decreases pieces.len(),
{
    if pieces.len() == 0 {
        seq![]
    } else {
        pieces[0] + joined(pieces.drop_first())
    }
}

/// Writing pieces succeeds exactly if there is room for all of them, and then
/// leaves them one after the other.
pub proof fn lemma_put_all(buf: Seq<u8>, off: int, pieces: Seq<Seq<u8>>)
    requires
        0 <= off <= buf.len(),
    ensures
        match put_all(buf, off, pieces).1 {
            Some(end) => {
                &&& end == off + joined(pieces).len()
                &&& end <= buf.len()
                &&& put_all(buf, off, pieces).0 == crate::bigendian::splice(
                    buf,
                    off,
                    joined(pieces),
                )
            },
            None => off + joined(pieces).len() > buf.len(),
        },
    decreases pieces.len(),
{
    if pieces.len() == 0 {
        assert(crate::bigendian::splice(buf, off, seq![]) =~= buf);
    } else if off + pieces[0].len() <= buf.len() {
        let filled = crate::bigendian::splice(buf, off, pieces[0]);
        let next = off + pieces[0].len();
        let rest = joined(pieces.drop_first());
        lemma_put_all(filled, next, pieces.drop_first());
        if next + rest.len() <= buf.len() {
            assert(crate::bigendian::splice(filled, next, rest) =~= crate::bigendian::splice(
                buf,
                off,
                pieces[0] + rest,
            ));
        }
    }
}

/// A number written as a variable-length integer is read back, if it fits.
pub proof fn lemma_varint_read_back(v: nat, size: nat, buf: Seq<u8>, off: int)
    requires
        size == 1 || size == 2,
        v < varint_limit(size),
        0 <= off,
        off + size <= buf.len(),
        buf.subrange(off, off + size) == varint_bytes(v, size),
    ensures
        varint_bytes(v, size).len() == size,
        varint_at(buf, off) == Some((v, off + size)),
{
    reveal_with_fuel(crate::bigendian::be_bytes, 3);
    reveal_with_fuel(crate::bigendian::be_value, 3);
    let s = buf.subrange(off, off + size);
    assert(s[0] == buf[off]);
    if size == 1 {
        let low = v as u8;
        assert(low | 0u8 == low) by (bit_vector);
        assert(s =~= seq![low]);
        assert(buf[off] < 0x40);
        assert(crate::bigendian::be_value(s) == v);
    } else {
        let high = (v / 256) as u8;
        assert(high | 0x40u8 == high + 0x40) by (bit_vector)
            requires
                high < 0x40,
        ;
        let marked = (high + 0x40) as u8;
        let low = (v % 256) as u8;
        assert(s =~= seq![marked, low]);
        assert(s.drop_last() =~= seq![marked]);
        assert(s.drop_last().drop_last() =~= seq![]);
        assert(0x40 <= buf[off] < 0x80);
        assert(crate::bigendian::be_value(s.drop_last()) == marked as nat);
        assert(crate::bigendian::be_value(s) == marked as nat * 256 + low as nat);
        assert(marked as nat * 256 + low as nat == v + 0x4000);
        vstd::arithmetic::div_mod::lemma_mod_add_multiples_vanish(v as int, 0x4000);
        vstd::arithmetic::div_mod::lemma_small_mod(v, 0x4000);
    }
    assert(varint_size(buf[off]) == size);
    assert(crate::bigendian::be_value(s) % varint_limit(size) == v) by {
        if size == 1 {
            assert(v % 0x40 == v);
        }
    }
}

/// Writes one byte at `off` and gives the offset behind it.
pub fn put_u8(buf: &mut Vec<u8>, off: usize, v: u8) -> (r: Result<usize, PsqError>)
    requires
        off <= old(buf)@.len(),
    ensures
        put_one(old(buf)@, off as int, seq![v], final(buf)@, r),
{
    match octets_put_u8(buf, off, v) {
        Ok(next) => Ok(next),
        Err(_) => Err(PsqError::Octets),
    }
}

/// Writes bytes at `off` and gives the offset behind them.
pub fn put_bytes(buf: &mut Vec<u8>, off: usize, v: &[u8]) -> (r: Result<usize, PsqError>)
    requires
        off <= old(buf)@.len(),
    ensures
        put_one(old(buf)@, off as int, v@, final(buf)@, r),
{
    match octets_put_bytes(buf, off, v) {
        Ok(next) => Ok(next),
        Err(_) => Err(PsqError::Octets),
    }
}

/// Writes a number as a variable-length integer of `size` bytes at `off` and
/// gives the offset behind it.
pub fn put_varint_with_len(buf: &mut Vec<u8>, off: usize, v: u64, size: usize) -> (r: Result<
    usize,
    PsqError,
>)
    requires
        off <= old(buf)@.len(),
        size == 1 || size == 2 || size == 4 || size == 8,
    ensures
        put_one(
            old(buf)@,
            off as int,
            varint_bytes(v as nat, size as nat),
            final(buf)@,
            r,
        ),
{
    proof {
        crate::bigendian::lemma_be_bytes_len(v as nat, size as nat);
    }
    match octets_put_varint_with_len(buf, off, v, size) {
        Ok(next) => Ok(next),
        Err(_) => Err(PsqError::Octets),
    }
}

/// What writing one piece at `off` does: the piece is written and the offset
/// behind it returned, or there is no room and nothing changes.
pub open spec fn put_one(
    before: Seq<u8>,
    off: int,
    piece: Seq<u8>,
    after: Seq<u8>,
    r: Result<usize, PsqError>,
) -> bool {
    match r {
        Ok(next) => {
            &&& off + piece.len() <= before.len()
            &&& next == off + piece.len()
            &&& after == crate::bigendian::splice(before, off, piece)
        },
        Err(e) => {
            &&& off + piece.len() > before.len()
            &&& e@ == ErrorView::Octets
            &&& after == before
        },
    }
}

/// Writing a piece puts its bytes at the offset and changes no others, or there is
/// no room for it and nothing changes.
pub proof fn law_pieces_are_written_whole(
    before: Seq<u8>,
    off: int,
    piece: Seq<u8>,
    after: Seq<u8>,
    r: Result<usize, PsqError>,
    i: int,
)
    requires
        0 <= off <= before.len(),
        put_one(before, off, piece, after, r),
    ensures
        r is Ok <==> off + piece.len() <= before.len(),
        after.len() == before.len(),
        r matches Ok(next) ==> next == off + piece.len(),
        r is Ok && 0 <= i < piece.len() ==> after[off + i] == piece[i],
        r is Ok && (0 <= i < off || off + piece.len() <= i < before.len()) ==> after[i]
            == before[i],
        r matches Err(e) ==> after == before && e@ == ErrorView::Octets,
{
}

/// Pieces are written up to the first for which there is no room: those before it
/// stand one after the other at the offset, and nothing else changes. Where there
/// is room for all, the offset behind them is given.
pub proof fn law_pieces_are_written_while_there_is_room(
    buf: Seq<u8>,
    off: int,
    pieces: Seq<Seq<u8>>,
    k: int,
)
    requires
        0 <= off <= buf.len(),
        0 <= k <= pieces.len(),
        off + joined(pieces.take(k)).len() <= buf.len(),
        k < pieces.len() ==> off + joined(pieces.take(k)).len() + pieces[k].len() > buf.len(),
    ensures
        ({
            let (after, end) = put_all(buf, off, pieces);
            &&& after == buf.take(off) + joined(pieces.take(k)) + buf.skip(
                off + joined(pieces.take(k)).len(),
            )
            &&& k < pieces.len() ==> end is None
            &&& k == pieces.len() ==> end == Some(off + joined(pieces).len())
        }),
    decreases pieces.len(),
{
    if k == 0 {
        assert(pieces.take(0) =~= seq![]);
        assert(buf.take(off) + seq![] + buf.skip(off) =~= buf);
        if pieces.len() == 0 {
            assert(pieces =~= seq![]);
        }
    } else {
        let part = pieces.take(k);
        let rest = pieces.drop_first();
        let filled = crate::bigendian::splice(buf, off, pieces[0]);
        let next = off + pieces[0].len();
        assert(part.drop_first() =~= rest.take(k - 1));
        assert(k < pieces.len() ==> rest[k - 1] == pieces[k]);
        law_pieces_are_written_while_there_is_room(filled, next, rest, k - 1);
        let tail = joined(rest.take(k - 1));
        assert(filled.take(next) + tail + filled.skip(next + tail.len()) =~= buf.take(off) + (
        pieces[0] + tail) + buf.skip(off + (pieces[0] + tail).len()));
    }
}

/// Pieces one after the other are as long as all of them, and end with the last.
pub proof fn law_pieces_join_in_order(pieces: Seq<Seq<u8>>, last: Seq<u8>)
    ensures
        joined(Seq::empty()) == Seq::<u8>::empty(),
        joined(pieces.push(last)) == joined(pieces) + last,
    decreases pieces.len(),
{
    if pieces.len() == 0 {
        assert(pieces.push(last).drop_first() =~= Seq::empty());
        assert(last + joined(Seq::empty()) =~= joined(pieces) + last);
    } else {
        law_pieces_join_in_order(pieces.drop_first(), last);
        let rest = joined(pieces.drop_first());
        assert(pieces[0] + (rest + last) =~= (pieces[0] + rest) + last);
        assert(pieces.push(last).drop_first() =~= pieces.drop_first().push(last));
        assert(pieces.push(last)[0] == pieces[0]);
    }
}

/// The weights of the first byte of variable-length integers.
proof fn lemma_varint_weights()
    ensures
        vstd::arithmetic::power::pow(256, 0) == 1,
        vstd::arithmetic::power::pow(256, 1) == 0x100,
        vstd::arithmetic::power::pow(256, 3) == 0x100_0000,
        vstd::arithmetic::power::pow(256, 7) == 0x100_0000_0000_0000,
{
    reveal_with_fuel(vstd::arithmetic::power::pow, 8);
}

/// The number in the bytes of a variable-length integer without its mark.
proof fn lemma_varint_value(s: Seq<u8>)
    requires
        s.len() > 0,
        s.len() == varint_size(s[0]),
    ensures
        crate::bigendian::be_value(s) % varint_limit(s.len()) == (s[0] - varint_mark(s.len()))
            * vstd::arithmetic::power::pow(256, (s.len() - 1) as nat) + crate::bigendian::be_value(
            s.drop_first(),
        ),
        s.len() == 1 ==> crate::bigendian::be_value(s.drop_first()) == 0,
        s.len() == 2 ==> crate::bigendian::be_value(s.drop_first()) == s[1],
{
    lemma_varint_weights();
    crate::bigendian::law_value_weighs_the_first_byte(s);
    let rest = s.drop_first();
    crate::bigendian::lemma_be_value_bound(rest);
    let mark = varint_mark(s.len());
    if s.len() == 1 {
        assert(rest =~= seq![]);
    } else if s.len() == 2 {
        assert(rest =~= Seq::<u8>::empty().push(s[1]));
        crate::bigendian::lemma_be_value_push(Seq::empty(), s[1]);
    }
    let v = (s[0] - mark) * vstd::arithmetic::power::pow(256, (s.len() - 1) as nat)
        + crate::bigendian::be_value(rest);
    assert(0 <= v < varint_limit(s.len()));
    let times = mark / 0x40;
    assert(crate::bigendian::be_value(s) == varint_limit(s.len()) * times + v);
    vstd::arithmetic::div_mod::lemma_mod_multiples_vanish(
        times as int,
        v,
        varint_limit(s.len()) as int,
    );
    vstd::arithmetic::div_mod::lemma_small_mod(v as nat, varint_limit(s.len()));
}

/// The two high bits of the first byte tell how many bytes a variable-length
/// integer takes: one, two, four or eight. Its value is the rest of the bits, in
/// network order. There is none where the buffer ends before it does.
pub proof fn law_varint_is_read_from_its_bytes(buf: Seq<u8>, off: int)
    requires
        0 <= off,
    ensures
        off >= buf.len() ==> varint_at(buf, off) is None,
        off < buf.len() && buf[off] < 0x40 ==> varint_at(buf, off) == Some(
            (buf[off] as nat, off + 1),
        ),
        off < buf.len() && 0x40 <= buf[off] < 0x80 ==> varint_at(buf, off) == if off + 2
            > buf.len() {
            None
        } else {
            Some((((buf[off] - 0x40) * 0x100 + buf[off + 1]) as nat, off + 2))
        },
        off < buf.len() && 0x80 <= buf[off] < 0xc0 ==> varint_at(buf, off) == if off + 4
            > buf.len() {
            None
        } else {
            Some(
                (
                    ((buf[off] - 0x80) * 0x100_0000 + crate::bigendian::be_value(
                        buf.subrange(off + 1, off + 4),
                    )) as nat,
                    off + 4,
                ),
            )
        },
        off < buf.len() && 0xc0 <= buf[off] ==> varint_at(buf, off) == if off + 8 > buf.len() {
            None
        } else {
            Some(
                (
                    ((buf[off] - 0xc0) * 0x100_0000_0000_0000 + crate::bigendian::be_value(
                        buf.subrange(off + 1, off + 8),
                    )) as nat,
                    off + 8,
                ),
            )
        },
{
    lemma_varint_weights();
    if off < buf.len() {
        let size = varint_size(buf[off]);
        if off + size <= buf.len() {
            lemma_varint_value(buf.subrange(off, off + size));
            assert(buf.subrange(off, off + size).drop_first() =~= buf.subrange(
                off + 1,
                off + size,
            ));
        }
    }
}

/// A number that fits into a variable-length integer of a given size is read back
/// from it, wherever it stands.
pub proof fn law_varint_is_read_back(v: nat, size: nat, buf: Seq<u8>, off: int)
    requires
        size == 1 && v < 0x40 || size == 2 && v < 0x4000 || size == 4 && v < 0x4000_0000 || size
            == 8 && v < 0x4000_0000_0000_0000,
        0 <= off,
        off + size <= buf.len(),
        buf.subrange(off, off + size) == varint_bytes(v, size),
    ensures
        varint_bytes(v, size).len() == size,
        varint_at(buf, off) == Some((v, off + size)),
{
    lemma_varint_weights();
    let low = crate::bigendian::be_bytes(v, size);
    let mark = varint_mark(size);
    let s = varint_bytes(v, size);
    crate::bigendian::lemma_be_bytes_len(v, size);
    assert(v < vstd::arithmetic::power::pow(256, size)) by {
        reveal_with_fuel(vstd::arithmetic::power::pow, 9);
    }
    crate::bigendian::lemma_be_value_of_bytes(v, size);
    crate::bigendian::law_value_weighs_the_first_byte(low);
    let weight = vstd::arithmetic::power::pow(256, (size - 1) as nat);
    let high = low[0] as int;
    assert(high < 0x40) by (nonlinear_arith)
        requires
            high * weight <= v,
            v < 0x40 * weight,
    ;
    let first = low[0];
    assert(first | 0u8 == first && first | 0x40u8 == first + 0x40 && first | 0x80u8 == first + 0x80
        && first | 0xc0u8 == first + 0xc0) by (bit_vector)
        requires
            first < 0x40,
    ;
    assert(s[0] == low[0] + mark);
    assert(s.drop_first() =~= low.drop_first());
    assert(buf[off] == s[0]);
    lemma_varint_value(s);
}

/// Where pieces are not all written, one of them is the first without room.
pub proof fn lemma_first_without_room(buf: Seq<u8>, off: int, pieces: Seq<Seq<u8>>) -> (k: int)
    requires
        0 <= off <= buf.len(),
        put_all(buf, off, pieces).1 is None,
    ensures
        0 <= k < pieces.len(),
        off + joined(pieces.take(k)).len() <= buf.len(),
        off + joined(pieces.take(k)).len() + pieces[k].len() > buf.len(),
    decreases pieces.len(),
{
    if off + pieces[0].len() <= buf.len() {
        let rest = pieces.drop_first();
        let filled = crate::bigendian::splice(buf, off, pieces[0]);
        let k = lemma_first_without_room(filled, off + pieces[0].len(), rest);
        assert(pieces.take(k + 1).drop_first() =~= rest.take(k));
        assert(pieces[k + 1] == rest[k]);
        k + 1
    } else {
        assert(pieces.take(0) =~= seq![]);
        0
    }
}

} // verus!
