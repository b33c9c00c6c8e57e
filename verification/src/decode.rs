//! Executable FEN decoding, verified against the model in [`crate::fen`].

use vstd::prelude::*;

use crate::fen;
use crate::fen::FenError;
use crate::game::CastlingRights;
use crate::pieces::ChessPiece;

verus! {

/// The character sequences of a vector of character vectors.
pub open spec fn views_of(vs: Seq<Vec<char>>) -> Seq<Seq<char>> {
    Seq::new(vs.len(), |i: int| vs[i]@)
}

/// The characters of a string, as a vector.
pub fn chars_of(s: &str) -> (r: Vec<char>)
    ensures
        r@ == s@,
{
    let n = s.unicode_len();
    let mut r: Vec<char> = Vec::new();
    let mut i: usize = 0;
    while i < n
        invariant
            i <= n,
            n == s@.len(),
            r@ =~= s@.subrange(0, i as int),
        decreases n - i,
    {
        let c = s.get_char(i);
        r.push(c);
        i = i + 1;
        proof {
            assert(r@ =~= s@.subrange(0, i as int));
        }
    }
    proof {
        assert(r@ =~= s@);
    }
    r
}

/// Splits a character vector at every occurrence of `sep`, exactly as
/// [`fen::split_on`] describes.
pub fn split_chars(s: &Vec<char>, sep: char) -> (r: Vec<Vec<char>>)
    ensures
        views_of(r@) == fen::split_on(s@, sep),
{
    let mut out: Vec<Vec<char>> = Vec::new();
    let mut cur: Vec<char> = Vec::new();
    let mut i: usize = 0;
    proof {
        let rest = fen::split_on(s@, sep);
        fen::lemma_split_len(s@, sep);
        assert(s@.subrange(0, s@.len() as int) =~= s@);
        assert(Seq::<char>::empty() + rest[0] =~= rest[0]);
        assert(views_of(out@) =~~= Seq::<Seq<char>>::empty());
        assert(seq![rest[0]] + rest.drop_first() =~~= rest);
    }
    while i < s.len()
        invariant
            i <= s@.len(),
            ({
                let rest = fen::split_on(s@.subrange(i as int, s@.len() as int), sep);
                rest.len() >= 1 && fen::split_on(s@, sep) =~~= views_of(out@) + seq![
                    cur@ + rest[0],
                ] + rest.drop_first()
            }),
        decreases s@.len() - i,
    {
        let ghost rem = s@.subrange(i as int, s@.len() as int);
        let ghost rem2 = s@.subrange(i as int + 1, s@.len() as int);
        proof {
            fen::lemma_split_len(rem2, sep);
            assert(rem[0] == s@[i as int]);
            assert(rem.drop_first() =~= rem2);
        }
        let c = s[i];
        if c == sep {
            proof {
                let r2 = fen::split_on(rem2, sep);
                assert(fen::split_on(rem, sep) == seq![Seq::<char>::empty()] + fen::split_on(
                    rem.drop_first(),
                    sep,
                ));
                assert(fen::split_on(rem, sep)[0] == Seq::<char>::empty());
                assert(fen::split_on(rem, sep).drop_first() =~~= r2);
                assert(cur@ + Seq::<char>::empty() =~= cur@);
                assert(seq![r2[0]] + r2.drop_first() =~~= r2);
            }
            out.push(cur);
            cur = Vec::new();
            proof {
                let r2 = fen::split_on(rem2, sep);
                assert(views_of(out@) =~~= views_of(out@.drop_last()) + seq![
                    out@.last()@,
                ]);
                assert(fen::split_on(s@, sep) =~~= views_of(out@) + seq![cur@ + r2[0]]
                    + r2.drop_first());
            }
        } else {
            proof {
                let r2 = fen::split_on(rem2, sep);
                assert(fen::split_on(rem, sep) == seq![seq![rem[0]] + r2[0]] + r2.drop_first());
                assert(fen::split_on(rem, sep)[0] == seq![rem[0]] + r2[0]);
                assert(fen::split_on(rem, sep).drop_first() =~~= r2.drop_first());
                assert(cur@ + (seq![rem[0]] + r2[0]) =~= cur@.push(rem[0]) + r2[0]);
            }
            cur.push(c);
            proof {
                let r2 = fen::split_on(rem2, sep);
                assert(fen::split_on(s@, sep) =~~= views_of(out@) + seq![cur@ + r2[0]]
                    + r2.drop_first());
            }
        }
        i = i + 1;
    }
    proof {
        let rest = fen::split_on(s@.subrange(i as int, s@.len() as int), sep);
        assert(s@.subrange(i as int, s@.len() as int) =~= Seq::<char>::empty());
        assert(rest == seq![Seq::<char>::empty()]);
        assert(cur@ + Seq::<char>::empty() =~= cur@);
    }
    out.push(cur);
    proof {
        assert(views_of(out@) =~~= views_of(out@.drop_last()) + seq![out@.last()@]);
        assert(views_of(out@) =~~= fen::split_on(s@, sep));
    }
    out
}

/// Tests for an ASCII letter.
fn is_letter(c: char) -> (r: bool)
    ensures
        r == crate::pieces::is_ascii_letter(c),
{
    let u = c as u32;
    (97 <= u && u <= 122) || (65 <= u && u <= 90)
}

/// Reads one rank group of a placement field, exactly as
/// [`fen::parse_rank`] describes; on success the rank has eight squares.
pub(crate) fn parse_rank_chars(s: &Vec<char>) -> (r: Result<Vec<Option<ChessPiece>>, FenError>)
    ensures
        match r {
            Ok(v) => fen::parse_rank(s@) == Ok::<Seq<Option<ChessPiece>>, FenError>(v@)
                && v@.len() == 8,
            Err(e) => fen::parse_rank(s@) == Err::<Seq<Option<ChessPiece>>, FenError>(e),
        },
{
    let mut acc: Vec<Option<ChessPiece>> = Vec::new();
    let mut i: usize = 0;
    proof {
        assert(s@.subrange(0, s@.len() as int) =~= s@);
    }
    while i < s.len()
        invariant
            i <= s@.len(),
            fen::parse_rank(s@) == fen::parse_rank_from(
                s@.subrange(i as int, s@.len() as int),
                acc@,
            ),
        decreases s@.len() - i,
    {
        let ghost rem = s@.subrange(i as int, s@.len() as int);
        let ghost rem2 = s@.subrange(i as int + 1, s@.len() as int);
        proof {
            assert(rem[0] == s@[i as int]);
            assert(rem.drop_first() =~= rem2);
        }
        let c = s[i];
        match ChessPiece::from_str(c) {
            Some(cp) => {
                acc.push(Some(cp));
            },
            None => {
                if is_letter(c) {
                    return Err(FenError::InvalidPieceChar);
                }
                let u = c as u32;
                if 49 <= u && u <= 57 {
                    let d = (u - 48) as usize;
                    if acc.len() >= 8 || d > 8 - acc.len() {
                        proof {
                            assert(acc@.len() + fen::digit_val(c) > 8);
                        }
                        return Err(FenError::RankOverflow);
                    }
                    let ghost acc0 = acc@;
                    let mut k: usize = 0;
                    while k < d
                        invariant
                            k <= d,
                            acc@ =~= acc0 + fen::empty_run(k as nat),
                        decreases d - k,
                    {
                        acc.push(None);
                        k = k + 1;
                        proof {
                            assert(acc@ =~= acc0 + fen::empty_run(k as nat));
                        }
                    }
                    proof {
                        assert(acc@ =~= acc0 + fen::empty_run(fen::digit_val(c) as nat));
                    }
                } else {
                    return Err(FenError::InvalidPlacementChar);
                }
            },
        }
        i = i + 1;
    }
    proof {
        assert(s@.subrange(i as int, s@.len() as int) =~= Seq::<char>::empty());
    }
    if acc.len() == 8 {
        Ok(acc)
    } else {
        Err(FenError::RankLengthMismatch)
    }
}

/// Reads a whole placement field, exactly as [`fen::parse_placement`]
/// describes; on success the board has 64 squares.
pub(crate) fn parse_placement_chars(s: &Vec<char>) -> (r: Result<
    Vec<Option<ChessPiece>>,
    FenError,
>)
    ensures
        match r {
            Ok(v) => fen::parse_placement(s@) == Ok::<Seq<Option<ChessPiece>>, FenError>(v@)
                && v@.len() == 64,
            Err(e) => fen::parse_placement(s@) == Err::<Seq<Option<ChessPiece>>, FenError>(e),
        },
{
    let groups = split_chars(s, '/');
    if groups.len() != 8 {
        return Err(FenError::MalformedRankCount);
    }
    let ghost gv = fen::split_on(s@, '/');
    let mut acc: Vec<Option<ChessPiece>> = Vec::new();
    let mut k: usize = 0;
    proof {
        assert(gv.subrange(0, 8) =~~= gv);
    }
    while k < 8
        invariant
            k <= 8,
            groups@.len() == 8,
            views_of(groups@) == gv,
            gv == fen::split_on(s@, '/'),
            gv.len() == 8,
            acc@.len() == 8 * k,
            fen::parse_placement(s@) == fen::parse_ranks(gv.subrange(k as int, 8), acc@),
        decreases 8 - k,
    {
        let ghost tail = gv.subrange(k as int, 8);
        proof {
            assert(tail[0] == gv[k as int]);
            assert(gv[k as int] == groups@[k as int]@);
            assert(tail.drop_first() =~~= gv.subrange(k as int + 1, 8));
        }
        match parse_rank_chars(&groups[k]) {
            Ok(mut rank) => {
                proof {
                    assert(fen::parse_ranks(tail, acc@) == fen::parse_ranks(
                        tail.drop_first(),
                        acc@ + rank@,
                    ));
                }
                acc.append(&mut rank);
            },
            Err(e) => {
                return Err(e);
            },
        }
        k = k + 1;
    }
    proof {
        assert(gv.subrange(8, 8) =~~= Seq::<Seq<char>>::empty());
        assert(fen::parse_ranks(Seq::<Seq<char>>::empty(), acc@) == Ok::<
            Seq<Option<ChessPiece>>,
            FenError,
        >(acc@));
    }
    Ok(acc)
}

/// Reads the castling field, exactly as [`fen::parse_castling`] describes.
pub(crate) fn parse_castling_chars(s: &Vec<char>) -> (r: Result<CastlingRights, FenError>)
    ensures
        r == fen::parse_castling(s@),
{
    if s.len() == 1 && s[0] == '-' {
        return Ok(
            CastlingRights {
                white_king_side: false,
                white_queen_side: false,
                black_king_side: false,
                black_queen_side: false,
            },
        );
    }
    if s.len() == 0 {
        return Err(FenError::InvalidCastlingChar);
    }
    let mut cr = CastlingRights {
        white_king_side: false,
        white_queen_side: false,
        black_king_side: false,
        black_queen_side: false,
    };
    let mut i: usize = 0;
    proof {
        assert(s@.subrange(0, s@.len() as int) =~= s@);
    }
    while i < s.len()
        invariant
            i <= s@.len(),
            fen::parse_castling(s@) == fen::parse_castling_from(
                s@.subrange(i as int, s@.len() as int),
                cr,
            ),
        decreases s@.len() - i,
    {
        let ghost rem = s@.subrange(i as int, s@.len() as int);
        proof {
            assert(rem[0] == s@[i as int]);
            assert(rem.drop_first() =~= s@.subrange(i as int + 1, s@.len() as int));
        }
        let c = s[i];
        if c == 'K' && !cr.white_king_side {
            cr = CastlingRights { white_king_side: true, ..cr };
        } else if c == 'Q' && !cr.white_queen_side {
            cr = CastlingRights { white_queen_side: true, ..cr };
        } else if c == 'k' && !cr.black_king_side {
            cr = CastlingRights { black_king_side: true, ..cr };
        } else if c == 'q' && !cr.black_queen_side {
            cr = CastlingRights { black_queen_side: true, ..cr };
        } else {
            return Err(FenError::InvalidCastlingChar);
        }
        i = i + 1;
    }
    proof {
        assert(s@.subrange(i as int, s@.len() as int) =~= Seq::<char>::empty());
    }
    Ok(cr)
}

/// Reads the en-passant field, exactly as [`fen::parse_en_passant`]
/// describes; a present target is always a square index below 64.
pub(crate) fn parse_en_passant_chars(s: &Vec<char>) -> (r: Result<Option<u8>, FenError>)
    ensures
        r == fen::parse_en_passant(s@),
        r matches Ok(Some(i)) ==> i < 64,
{
    if s.len() == 1 && s[0] == '-' {
        return Ok(None);
    }
    if s.len() == 2 {
        let f = s[0] as u32;
        let d = s[1] as u32;
        if 97 <= f && f <= 104 && 49 <= d && d <= 56 {
            let file = f - 97;
            let rank_digit = d - 48;
            let idx = (8 - rank_digit) * 8 + file;
            proof {
                assert(idx == fen::square_of(fen::file_val(s@[0]), fen::digit_val(s@[1])));
                assert(idx < 64);
            }
            return Ok(Some(idx as u8));
        }
    }
    Err(FenError::InvalidEnPassantSquare)
}

/// Reads a clock field, exactly as [`fen::parse_counter`] describes.
pub(crate) fn parse_counter_chars(s: &Vec<char>) -> (r: Result<u64, FenError>)
    ensures
        r == fen::parse_counter(s@),
{
    if s.len() == 0 {
        return Err(FenError::InvalidNumber);
    }
    let mut acc: u64 = 0;
    let mut i: usize = 0;
    while i < s.len()
        invariant
            i <= s@.len(),
            s@.len() >= 1,
            forall|j: int| 0 <= j < i ==> fen::is_digit(s@[j]),
            acc == fen::digits_val(s@.subrange(0, i as int)),
        decreases s@.len() - i,
    {
        let c = s[i];
        let u = c as u32;
        if !(48 <= u && u <= 57) {
            proof {
                assert(!fen::is_digit(s@[i as int]));
                assert(!fen::all_digits(s@));
            }
            return Err(FenError::InvalidNumber);
        }
        let d = (u - 48) as u64;
        let ghost p = s@.subrange(0, i as int + 1);
        proof {
            assert(p.drop_last() =~= s@.subrange(0, i as int));
            assert(p.last() == s@[i as int]);
            assert(fen::digits_val(p) == fen::digits_val(s@.subrange(0, i as int)) * 10
                + fen::digit_val(s@[i as int]));
        }
        if acc > (u64::MAX - d) / 10 {
            proof {
                assert(fen::digits_val(p) > u64::MAX);
                if fen::all_digits(s@) {
                    fen::lemma_digits_val_prefix_le(s@, i as int + 1);
                    assert(fen::digits_val(s@) > u64::MAX);
                }
            }
            return Err(FenError::InvalidNumber);
        }
        acc = acc * 10 + d;
        i = i + 1;
    }
    proof {
        assert(s@.subrange(0, i as int) =~= s@);
        assert(fen::all_digits(s@));
    }
    Ok(acc)
}

/// Reads the side-to-move field, exactly as
/// [`crate::pieces::parse_color`] describes.
pub(crate) fn parse_color_chars(s: &Vec<char>) -> (r: Result<crate::pieces::Color, FenError>)
    ensures
        r == crate::pieces::parse_color(s@),
{
    if s.len() == 1 {
        let c = s[0];
        if c == 'w' || c == 'W' {
            return Ok(crate::pieces::Color::White);
        }
        if c == 'b' || c == 'B' {
            return Ok(crate::pieces::Color::Black);
        }
    }
    Err(FenError::InvalidColor)
}

/// Counts the squares of `v` holding exactly `target`.
pub(crate) fn count_piece_vec(v: &Vec<Option<ChessPiece>>, target: ChessPiece) -> (n: u64)
    requires
        v@.len() < 0x1000_0000,
    ensures
        n == fen::count_piece(v@, target),
{
    let mut n: u64 = 0;
    let mut i: usize = 0;
    proof {
        assert(v@.subrange(0, v@.len() as int) =~= v@);
    }
    while i < v.len()
        invariant
            i <= v@.len(),
            v@.len() < 0x1000_0000,
            n <= i,
            fen::count_piece(v@, target) == n + fen::count_piece(
                v@.subrange(i as int, v@.len() as int),
                target,
            ),
        decreases v@.len() - i,
    {
        let ghost rem = v@.subrange(i as int, v@.len() as int);
        proof {
            assert(rem[0] == v@[i as int]);
            assert(rem.drop_first() =~= v@.subrange(i as int + 1, v@.len() as int));
        }
        let hit = match &v[i] {
            Some(cp) => cp.piece == target.piece && cp.color == target.color,
            None => false,
        };
        if hit {
            n = n + 1;
        }
        proof {
            assert((v@[i as int] == Some(target)) == hit);
        }
        i = i + 1;
    }
    proof {
        assert(v@.subrange(i as int, v@.len() as int) =~= Seq::<Option<ChessPiece>>::empty());
    }
    n
}

} // verus!
