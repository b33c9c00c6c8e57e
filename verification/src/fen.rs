//! The mathematical model of the FEN codec.
//!
//! Everything here is specification code: `fen_decode` says exactly which
//! character sequences are accepted as FEN strings and what position each
//! one denotes, and `fen_encode` says exactly which character sequence a
//! position prints as. The executable codec in [`crate::decode`],
//! [`crate::encode`] and [`crate::game`] is verified against these two
//! functions, and the round-trip law relating them is proved in
//! [`crate::laws`].
//!
//! Policies this model fixes where the FEN grammar leaves room:
//! - fields are separated by single spaces;
//! - the side-to-move letter is accepted in either case (`w`/`W`, `b`/`B`);
//! - a duplicated castling letter is rejected as `InvalidCastlingChar`;
//! - a `0` in a placement rank is rejected as `InvalidPlacementChar`, while
//!   a `9` is a run digit that always overflows the rank;
//! - the clock fields accept any base-10 value that fits in 64 bits, leading
//!   zeros included; a larger value is rejected as `InvalidNumber`.

use vstd::prelude::*;

use crate::game::CastlingRights;
use crate::game::PosView;
use crate::pieces::is_ascii_letter;
use crate::pieces::parse_color;
use crate::pieces::piece_char;
use crate::pieces::piece_from_char;
use crate::pieces::ChessPiece;
use crate::pieces::Color;
use crate::pieces::Piece;

verus! {

/// Why a FEN string was rejected by decoding. Encoding is total and never
/// fails.
#[derive(Clone, Copy, Debug, PartialEq, Eq, Structural)]
pub enum FenError {
    /// The string does not have exactly six space-separated fields.
    MalformedFieldCount,
    /// The placement field does not have exactly eight rank groups.
    MalformedRankCount,
    /// A rank group accounts for fewer or more than eight squares.
    RankLengthMismatch,
    /// A digit run would push a rank past eight squares.
    RankOverflow,
    /// A letter in the placement field is not one of `PNBRQKpnbrqk`.
    InvalidPieceChar,
    /// A placement character is neither a letter nor a run digit `1`-`9`.
    InvalidPlacementChar,
    /// The side-to-move field is not a single `w` or `b`.
    InvalidColor,
    /// The castling field is not `-` or distinct letters from `KQkq`.
    InvalidCastlingChar,
    /// The en-passant field is not `-` or a file letter and a rank digit.
    InvalidEnPassantSquare,
    /// A clock field is not a base-10 number that fits the counter type.
    InvalidNumber,
    /// The decoded placement lacks exactly one king per color.
    InvalidKingCount,
}

/// Splits `s` at every occurrence of `sep`, `str::split` style: the result
/// always has one more element than `s` has separators, so adjacent,
/// leading or trailing separators yield empty fields.
pub open spec fn split_on(s: Seq<char>, sep: char) -> Seq<Seq<char>>
    decreases s.len(),
{
    if s.len() == 0 {
        seq![Seq::<char>::empty()]
    } else if s[0] == sep {
        seq![Seq::<char>::empty()] + split_on(s.drop_first(), sep)
    } else {
        let rest = split_on(s.drop_first(), sep);
        seq![seq![s[0]] + rest[0]] + rest.drop_first()
    }
}

/// Interleaves `sep` between the fields: the inverse of [`split_on`] when
/// no field contains the separator.
pub open spec fn join_with(fields: Seq<Seq<char>>, sep: char) -> Seq<char>
    decreases fields.len(),
{
    if fields.len() == 0 {
        Seq::<char>::empty()
    } else if fields.len() == 1 {
        fields[0]
    } else {
        fields[0] + seq![sep] + join_with(fields.drop_first(), sep)
    }
}

/// An ASCII decimal digit.
pub open spec fn is_digit(c: char) -> bool {
    48 <= c as u32 && c as u32 <= 57
}

/// The numeric value of an ASCII digit character.
pub open spec fn digit_val(c: char) -> int {
    c as u32 - 48
}

/// The ASCII character of a decimal digit value in `[0, 9]`.
pub open spec fn digit_char(d: int) -> char {
    if d == 0 {
        '0'
    } else if d == 1 {
        '1'
    } else if d == 2 {
        '2'
    } else if d == 3 {
        '3'
    } else if d == 4 {
        '4'
    } else if d == 5 {
        '5'
    } else if d == 6 {
        '6'
    } else if d == 7 {
        '7'
    } else if d == 8 {
        '8'
    } else {
        '9'
    }
}

/// A run of `n` empty squares.
pub open spec fn empty_run(n: nat) -> Seq<Option<ChessPiece>> {
    Seq::new(n, |i: int| None::<ChessPiece>)
}

/// Scans the remainder `s` of a rank group, having already accounted for
/// the squares in `acc`. A piece letter claims one square, a run digit
/// `1`-`9` claims that many empty squares, and the rank must come out at
/// exactly eight squares.
pub open spec fn parse_rank_from(s: Seq<char>, acc: Seq<Option<ChessPiece>>) -> Result<
    Seq<Option<ChessPiece>>,
    FenError,
>
    decreases s.len(),
{
    if s.len() == 0 {
        if acc.len() == 8 {
            Ok(acc)
        } else {
            Err(FenError::RankLengthMismatch)
        }
    } else {
        let c = s[0];
        match piece_from_char(c) {
            Some(cp) => parse_rank_from(s.drop_first(), acc.push(Some(cp))),
            None => if is_ascii_letter(c) {
                Err(FenError::InvalidPieceChar)
            } else if is_digit(c) && digit_val(c) >= 1 {
                if acc.len() + digit_val(c) > 8 {
                    Err(FenError::RankOverflow)
                } else {
                    parse_rank_from(s.drop_first(), acc + empty_run(digit_val(c) as nat))
                }
            } else {
                Err(FenError::InvalidPlacementChar)
            },
        }
    }
}

/// Reads one rank group of the placement field into its eight squares,
/// leftmost square first.
pub open spec fn parse_rank(s: Seq<char>) -> Result<Seq<Option<ChessPiece>>, FenError> {
    parse_rank_from(s, Seq::<Option<ChessPiece>>::empty())
}

/// Reads the remaining rank groups, appending their squares to `acc`; the
/// first failing rank decides the error.
pub open spec fn parse_ranks(groups: Seq<Seq<char>>, acc: Seq<Option<ChessPiece>>) -> Result<
    Seq<Option<ChessPiece>>,
    FenError,
>
    decreases groups.len(),
{
    if groups.len() == 0 {
        Ok(acc)
    } else {
        match parse_rank(groups[0]) {
            Ok(r) => parse_ranks(groups.drop_first(), acc + r),
            Err(e) => Err(e),
        }
    }
}

/// Reads the placement field: eight `/`-separated rank groups, rank 8
/// first, 64 squares in all.
pub open spec fn parse_placement(s: Seq<char>) -> Result<Seq<Option<ChessPiece>>, FenError> {
    let groups = split_on(s, '/');
    if groups.len() != 8 {
        Err(FenError::MalformedRankCount)
    } else {
        parse_ranks(groups, Seq::<Option<ChessPiece>>::empty())
    }
}

/// No castling rights at all.
pub open spec fn no_rights() -> CastlingRights {
    CastlingRights {
        white_king_side: false,
        white_queen_side: false,
        black_king_side: false,
        black_queen_side: false,
    }
}

/// Scans the castling field, accumulating rights; a repeated letter or a
/// character outside `KQkq` is rejected.
pub open spec fn parse_castling_from(s: Seq<char>, acc: CastlingRights) -> Result<
    CastlingRights,
    FenError,
>
    decreases s.len(),
{
    if s.len() == 0 {
        Ok(acc)
    } else if s[0] == 'K' && !acc.white_king_side {
        parse_castling_from(s.drop_first(), CastlingRights { white_king_side: true, ..acc })
    } else if s[0] == 'Q' && !acc.white_queen_side {
        parse_castling_from(s.drop_first(), CastlingRights { white_queen_side: true, ..acc })
    } else if s[0] == 'k' && !acc.black_king_side {
        parse_castling_from(s.drop_first(), CastlingRights { black_king_side: true, ..acc })
    } else if s[0] == 'q' && !acc.black_queen_side {
        parse_castling_from(s.drop_first(), CastlingRights { black_queen_side: true, ..acc })
    } else {
        Err(FenError::InvalidCastlingChar)
    }
}

/// Reads the castling field: `-` for no rights, otherwise letters from
/// `KQkq` in any order, each at most once.
pub open spec fn parse_castling(s: Seq<char>) -> Result<CastlingRights, FenError> {
    if s.len() == 1 && s[0] == '-' {
        Ok(no_rights())
    } else if s.len() == 0 {
        Err(FenError::InvalidCastlingChar)
    } else {
        parse_castling_from(s, no_rights())
    }
}

/// An ASCII file letter `a`-`h`.
pub open spec fn is_file_char(c: char) -> bool {
    97 <= c as u32 && c as u32 <= 104
}

/// The file number (0 for `a` through 7 for `h`) of a file letter.
pub open spec fn file_val(c: char) -> int {
    c as u32 - 97
}

/// The file letter of a file number in `[0, 7]`.
pub open spec fn file_char(f: int) -> char {
    if f == 0 {
        'a'
    } else if f == 1 {
        'b'
    } else if f == 2 {
        'c'
    } else if f == 3 {
        'd'
    } else if f == 4 {
        'e'
    } else if f == 5 {
        'f'
    } else if f == 6 {
        'g'
    } else {
        'h'
    }
}

/// An ASCII rank digit `1`-`8`.
pub open spec fn is_rank_char(c: char) -> bool {
    49 <= c as u32 && c as u32 <= 56
}

/// The square index of an algebraic square: rank 8 occupies indices 0-7,
/// rank 1 occupies indices 56-63, files run from a to h within a rank.
pub open spec fn square_of(file: int, rank_digit: int) -> int {
    (8 - rank_digit) * 8 + file
}

/// Reads the en-passant field: `-` for no target, otherwise a file letter
/// followed by a rank digit.
pub open spec fn parse_en_passant(s: Seq<char>) -> Result<Option<u8>, FenError> {
    if s.len() == 1 && s[0] == '-' {
        Ok(None)
    } else if s.len() == 2 && is_file_char(s[0]) && is_rank_char(s[1]) {
        Ok(Some(square_of(file_val(s[0]), digit_val(s[1])) as u8))
    } else {
        Err(FenError::InvalidEnPassantSquare)
    }
}

/// Every character of `s` is a decimal digit.
pub open spec fn all_digits(s: Seq<char>) -> bool {
    forall|i: int| 0 <= i < s.len() ==> is_digit(s[i])
}

/// The base-10 value of a digit string.
pub open spec fn digits_val(s: Seq<char>) -> int
    decreases s.len(),
{
    if s.len() == 0 {
        0
    } else {
        digits_val(s.drop_last()) * 10 + digit_val(s.last())
    }
}

/// Reads a clock field: one or more decimal digits whose value fits in 64
/// bits.
pub open spec fn parse_counter(s: Seq<char>) -> Result<u64, FenError> {
    if s.len() >= 1 && all_digits(s) && digits_val(s) <= u64::MAX {
        Ok(digits_val(s) as u64)
    } else {
        Err(FenError::InvalidNumber)
    }
}

/// The white king, as a square occupant.
pub open spec fn white_king() -> ChessPiece {
    ChessPiece { piece: Piece::King, color: Color::White }
}

/// The black king, as a square occupant.
pub open spec fn black_king() -> ChessPiece {
    ChessPiece { piece: Piece::King, color: Color::Black }
}

/// How many squares of `b` hold exactly the piece `target`.
pub open spec fn count_piece(b: Seq<Option<ChessPiece>>, target: ChessPiece) -> nat
    decreases b.len(),
{
    if b.len() == 0 {
        0
    } else {
        (if b[0] == Some(target) {
            1nat
        } else {
            0nat
        }) + count_piece(b.drop_first(), target)
    }
}

/// How many squares of `b` are occupied at all.
pub open spec fn count_occupied(b: Seq<Option<ChessPiece>>) -> nat
    decreases b.len(),
{
    if b.len() == 0 {
        0
    } else {
        (if b[0] is Some {
            1nat
        } else {
            0nat
        }) + count_occupied(b.drop_first())
    }
}

/// What a FEN character sequence decodes to: six space-separated fields,
/// each read by its field parser in order, and then the one-king-per-color
/// check on the decoded placement.
pub open spec fn fen_decode(s: Seq<char>) -> Result<PosView, FenError> {
    let fields = split_on(s, ' ');
    if fields.len() != 6 {
        Err(FenError::MalformedFieldCount)
    } else {
        match parse_placement(fields[0]) {
            Err(e) => Err(e),
            Ok(board) => match parse_color(fields[1]) {
                Err(e) => Err(e),
                Ok(side) => match parse_castling(fields[2]) {
                    Err(e) => Err(e),
                    Ok(castling) => match parse_en_passant(fields[3]) {
                        Err(e) => Err(e),
                        Ok(ep) => match parse_counter(fields[4]) {
                            Err(e) => Err(e),
                            Ok(half) => match parse_counter(fields[5]) {
                                Err(e) => Err(e),
                                Ok(full) => if count_piece(board, white_king()) == 1
                                    && count_piece(board, black_king()) == 1 {
                                    Ok(
                                        PosView {
                                            board,
                                            side_to_move: side,
                                            castling_rights: castling,
                                            en_passant_target: ep,
                                            halfmove_clock: half,
                                            fullmove_counter: full,
                                        },
                                    )
                                } else {
                                    Err(FenError::InvalidKingCount)
                                },
                            },
                        },
                    },
                },
            },
        }
    }
}

/// Prints the remainder of a rank, with `pending` empty squares already
/// seen and not yet printed: consecutive empties coalesce into a single
/// run digit, so adjacent digits never appear.
pub open spec fn encode_rank_from(rank: Seq<Option<ChessPiece>>, pending: nat) -> Seq<char>
    decreases rank.len(),
{
    if rank.len() == 0 {
        if pending == 0 {
            Seq::<char>::empty()
        } else {
            seq![digit_char(pending as int)]
        }
    } else {
        match rank[0] {
            None => encode_rank_from(rank.drop_first(), pending + 1),
            Some(cp) => (if pending == 0 {
                Seq::<char>::empty()
            } else {
                seq![digit_char(pending as int)]
            }) + seq![piece_char(cp)] + encode_rank_from(rank.drop_first(), 0),
        }
    }
}

/// Prints one rank of eight squares as a FEN rank group.
pub open spec fn encode_rank(rank: Seq<Option<ChessPiece>>) -> Seq<char> {
    encode_rank_from(rank, 0)
}

/// The eight rank groups of a 64-square board, rank 8 first.
pub open spec fn rank_groups(b: Seq<Option<ChessPiece>>) -> Seq<Seq<char>> {
    Seq::new(8, |r: int| encode_rank(b.subrange(8 * r, 8 * r + 8)))
}

/// Prints the placement field of a 64-square board.
pub open spec fn encode_placement(b: Seq<Option<ChessPiece>>) -> Seq<char> {
    join_with(rank_groups(b), '/')
}

/// Prints the side-to-move field, canonically lowercase.
pub open spec fn color_field(c: Color) -> Seq<char> {
    match c {
        Color::White => seq!['w'],
        Color::Black => seq!['b'],
    }
}

/// Prints the castling field in the canonical `KQkq` letter order, `-` when
/// no right is held.
pub open spec fn castling_field(cr: CastlingRights) -> Seq<char> {
    if !cr.white_king_side && !cr.white_queen_side && !cr.black_king_side
        && !cr.black_queen_side {
        seq!['-']
    } else {
        (if cr.white_king_side {
            seq!['K']
        } else {
            Seq::<char>::empty()
        }) + (if cr.white_queen_side {
            seq!['Q']
        } else {
            Seq::<char>::empty()
        }) + (if cr.black_king_side {
            seq!['k']
        } else {
            Seq::<char>::empty()
        }) + (if cr.black_queen_side {
            seq!['q']
        } else {
            Seq::<char>::empty()
        })
    }
}

/// Prints the en-passant field: the algebraic square of the target index,
/// or `-`.
pub open spec fn en_passant_field(ep: Option<u8>) -> Seq<char> {
    match ep {
        None => seq!['-'],
        Some(i) => seq![file_char(i as int % 8), digit_char(8 - i as int / 8)],
    }
}

/// Prints a clock value in base 10 with no leading zeros (`0` for zero).
pub open spec fn counter_field(n: nat) -> Seq<char>
    decreases n,
{
    if n < 10 {
        seq![digit_char(n as int)]
    } else {
        counter_field(n / 10) + seq![digit_char(n as int % 10)]
    }
}

/// What a position prints as: the six fields in order, single spaces
/// between them.
pub open spec fn fen_encode(v: PosView) -> Seq<char> {
    encode_placement(v.board) + seq![' '] + color_field(v.side_to_move) + seq![' ']
        + castling_field(v.castling_rights) + seq![' '] + en_passant_field(v.en_passant_target)
        + seq![' '] + counter_field(v.halfmove_clock as nat) + seq![' '] + counter_field(
        v.fullmove_counter as nat,
    )
}

/// A structurally well-formed position view: 64 squares, and an en-passant
/// target that is a square index. Encoding is total on such views.
pub open spec fn view_wf(v: PosView) -> bool {
    &&& v.board.len() == 64
    &&& v.en_passant_target matches Some(i) ==> i < 64
}

/// A complete position as FEN decoding accepts it: well-formed with exactly
/// one king of each color.
pub open spec fn view_complete(v: PosView) -> bool {
    &&& view_wf(v)
    &&& count_piece(v.board, white_king()) == 1
    &&& count_piece(v.board, black_king()) == 1
}

/// How many characters of `s` are ASCII letters. On any placement field
/// that decoding accepts, every letter is a piece letter, so this counts
/// the piece letters of the field.
pub open spec fn count_letters(s: Seq<char>) -> nat
    decreases s.len(),
{
    if s.len() == 0 {
        0
    } else {
        (if is_ascii_letter(s[0]) {
            1nat
        } else {
            0nat
        }) + count_letters(s.drop_first())
    }
}

/// Splitting always yields at least one field.
pub proof fn lemma_split_len(s: Seq<char>, sep: char)
    ensures
        split_on(s, sep).len() >= 1,
    decreases s.len(),
{
    if s.len() == 0 {
    } else {
        lemma_split_len(s.drop_first(), sep);
    }
}

/// Prepending separator-free text to `s` extends the first field of the
/// split of `s`.
pub proof fn lemma_split_prefix(a: Seq<char>, s: Seq<char>, sep: char)
    requires
        forall|i: int| 0 <= i < a.len() ==> a[i] != sep,
    ensures
        split_on(a + s, sep) =~~= seq![a + split_on(s, sep)[0]] + split_on(s, sep).drop_first(),
    decreases a.len(),
{
    lemma_split_len(s, sep);
    let rest = split_on(s, sep);
    if a.len() == 0 {
        assert(a + s =~= s);
        assert(a + rest[0] =~= rest[0]);
        assert(seq![rest[0]] + rest.drop_first() =~~= rest);
    } else {
        let t = a.drop_first();
        lemma_split_prefix(t, s, sep);
        let r2 = split_on(t + s, sep);
        assert((a + s)[0] == a[0]);
        assert((a + s)[0] != sep);
        assert((a + s).drop_first() =~= t + s);
        assert(split_on(a + s, sep) == seq![seq![(a + s)[0]] + r2[0]] + r2.drop_first());
        assert(r2[0] == t + rest[0]);
        assert(seq![a[0]] + (t + rest[0]) =~= a + rest[0]);
        assert(r2.drop_first() =~~= rest.drop_first());
    }
}

/// Splitting undoes joining, as long as no field contains the separator.
pub proof fn lemma_split_join(fields: Seq<Seq<char>>, sep: char)
    requires
        fields.len() >= 1,
        forall|f: int, i: int|
            0 <= f < fields.len() && 0 <= i < fields[f].len() ==> fields[f][i] != sep,
    ensures
        split_on(join_with(fields, sep), sep) =~~= fields,
    decreases fields.len(),
{
    if fields.len() == 1 {
        lemma_split_prefix(fields[0], Seq::<char>::empty(), sep);
        assert(fields[0] + Seq::<char>::empty() =~= fields[0]);
        let rest = split_on(Seq::<char>::empty(), sep);
        assert(rest == seq![Seq::<char>::empty()]);
        assert(fields[0] + rest[0] =~= fields[0]);
        assert(split_on(join_with(fields, sep), sep) =~~= seq![fields[0]] + rest.drop_first());
        assert(seq![fields[0]] + rest.drop_first() =~~= fields);
    } else {
        let f0 = fields[0];
        let rest_fields = fields.drop_first();
        assert forall|f: int, i: int|
            0 <= f < rest_fields.len() && 0 <= i < rest_fields[f].len() implies rest_fields[f][i]
            != sep by {
            assert(rest_fields[f] == fields[f + 1]);
        }
        lemma_split_join(rest_fields, sep);
        let j = join_with(rest_fields, sep);
        let sj = seq![sep] + j;
        assert(join_with(fields, sep) == f0 + sj);
        lemma_split_prefix(f0, sj, sep);
        assert(sj[0] == sep);
        assert(sj.drop_first() =~= j);
        assert(split_on(sj, sep) == seq![Seq::<char>::empty()] + split_on(j, sep));
        assert(split_on(sj, sep)[0] == Seq::<char>::empty());
        assert(split_on(sj, sep).drop_first() =~~= split_on(j, sep));
        assert(f0 + Seq::<char>::empty() =~= f0);
        assert(split_on(join_with(fields, sep), sep) =~~= seq![f0] + split_on(j, sep));
        assert(seq![f0] + rest_fields =~~= fields);
    }
}

/// Joining undoes splitting.
pub proof fn lemma_join_split(s: Seq<char>, sep: char)
    ensures
        join_with(split_on(s, sep), sep) =~= s,
    decreases s.len(),
{
    if s.len() == 0 {
    } else {
        let t = s.drop_first();
        lemma_join_split(t, sep);
        lemma_split_len(t, sep);
        let r = split_on(t, sep);
        if s[0] == sep {
            let sp = seq![Seq::<char>::empty()] + r;
            assert(split_on(s, sep) == sp);
            assert(sp.drop_first() =~~= r);
            assert(join_with(sp, sep) == sp[0] + seq![sep] + join_with(r, sep));
            assert(sp[0] + seq![sep] + join_with(r, sep) =~= seq![sep] + t);
            assert(seq![sep] + t =~= s);
        } else {
            let sp = seq![seq![s[0]] + r[0]] + r.drop_first();
            assert(split_on(s, sep) == sp);
            if r.len() == 1 {
                assert(sp.len() == 1);
                assert(join_with(sp, sep) == sp[0]);
                assert(join_with(r, sep) == r[0]);
                assert(sp[0] =~= seq![s[0]] + t);
                assert(seq![s[0]] + t =~= s);
            } else {
                assert(sp.drop_first() =~~= r.drop_first());
                assert(join_with(sp, sep) == sp[0] + seq![sep] + join_with(r.drop_first(), sep));
                assert(join_with(r, sep) == r[0] + seq![sep] + join_with(r.drop_first(), sep));
                assert(sp[0] + seq![sep] + join_with(r.drop_first(), sep) =~= seq![s[0]] + (r[0]
                    + seq![sep] + join_with(r.drop_first(), sep)));
                assert(seq![s[0]] + join_with(r, sep) =~= s);
            }
        }
    }
}

/// Appending one more field to a join appends a separator and the field.
pub proof fn lemma_join_push(fields: Seq<Seq<char>>, y: Seq<char>, sep: char)
    requires
        fields.len() >= 1,
    ensures
        join_with(fields.push(y), sep) =~= join_with(fields, sep) + seq![sep] + y,
    decreases fields.len(),
{
    let fp = fields.push(y);
    if fields.len() == 1 {
        assert(fp.drop_first() =~~= seq![y]);
        assert(join_with(seq![y], sep) == y);
        assert(join_with(fp, sep) == fp[0] + seq![sep] + join_with(fp.drop_first(), sep));
    } else {
        lemma_join_push(fields.drop_first(), y, sep);
        assert(fp.drop_first() =~~= fields.drop_first().push(y));
        assert(join_with(fp, sep) == fp[0] + seq![sep] + join_with(fp.drop_first(), sep));
        assert(fp[0] + seq![sep] + (join_with(fields.drop_first(), sep) + seq![sep] + y) =~= (
        fields[0] + seq![sep] + join_with(fields.drop_first(), sep)) + seq![sep] + y);
    }
}

/// The value of a digit string is non-negative.
pub proof fn lemma_digits_val_nonneg(s: Seq<char>)
    requires
        all_digits(s),
    ensures
        digits_val(s) >= 0,
    decreases s.len(),
{
    if s.len() == 0 {
    } else {
        assert forall|i: int| 0 <= i < s.drop_last().len() implies is_digit(
            s.drop_last()[i],
        ) by {
            assert(s.drop_last()[i] == s[i]);
        }
        lemma_digits_val_nonneg(s.drop_last());
        assert(is_digit(s.last()));
    }
}

/// A prefix of a digit string never exceeds the whole string in value.
pub proof fn lemma_digits_val_prefix_le(s: Seq<char>, j: int)
    requires
        all_digits(s),
        0 <= j <= s.len(),
    ensures
        digits_val(s.subrange(0, j)) <= digits_val(s),
    decreases s.len() - j,
{
    assert forall|k: int, i: int| 0 <= k <= s.len() && 0 <= i < k implies is_digit(
        s.subrange(0, k)[i],
    ) by {
        assert(s.subrange(0, k)[i] == s[i]);
    }
    if j == s.len() {
        assert(s.subrange(0, j) =~= s);
    } else {
        lemma_digits_val_prefix_le(s, j + 1);
        let p = s.subrange(0, j + 1);
        assert(p.drop_last() =~= s.subrange(0, j));
        assert(p.last() == s[j]);
        lemma_digits_val_nonneg(s.subrange(0, j));
        assert(is_digit(s[j]));
        assert(digits_val(p) == digits_val(s.subrange(0, j)) * 10 + digit_val(s[j]));
    }
}

/// A printed counter is a non-empty digit string that reads back as the
/// printed value.
pub proof fn lemma_counter_field_ok(n: nat)
    ensures
        counter_field(n).len() >= 1,
        all_digits(counter_field(n)),
        digits_val(counter_field(n)) == n,
    decreases n,
{
    let f = counter_field(n);
    if n < 10 {
        assert(f == seq![digit_char(n as int)]);
        assert(is_digit(digit_char(n as int)));
        assert(digit_val(digit_char(n as int)) == n);
        assert(f.drop_last() =~= Seq::<char>::empty());
        assert(f.last() == digit_char(n as int));
        assert(digits_val(f) == digits_val(Seq::<char>::empty()) * 10 + digit_val(f.last()));
        assert(all_digits(f));
    } else {
        lemma_counter_field_ok(n / 10);
        let a = counter_field(n / 10);
        assert(f == a + seq![digit_char(n as int % 10)]);
        assert(f.drop_last() =~= a);
        assert(f.last() == digit_char(n as int % 10));
        assert(is_digit(f.last()));
        assert(digit_val(f.last()) == n as int % 10);
        assert(digits_val(f) == digits_val(a) * 10 + digit_val(f.last()));
        assert(n as int == (n as int / 10) * 10 + n as int % 10) by {
            vstd::arithmetic::div_mod::lemma_fundamental_div_mod(n as int, 10);
        }
        assert forall|i: int| 0 <= i < f.len() implies is_digit(f[i]) by {
            if i < a.len() {
                assert(f[i] == a[i]);
            }
        }
    }
}

/// Occupancy count distributes over concatenation.
pub proof fn lemma_count_occupied_concat(a: Seq<Option<ChessPiece>>, b: Seq<Option<ChessPiece>>)
    ensures
        count_occupied(a + b) == count_occupied(a) + count_occupied(b),
    decreases a.len(),
{
    if a.len() == 0 {
        assert(a + b =~= b);
    } else {
        assert((a + b)[0] == a[0]);
        assert((a + b).drop_first() =~= a.drop_first() + b);
        lemma_count_occupied_concat(a.drop_first(), b);
    }
}

/// A run of empty squares holds no piece.
pub proof fn lemma_count_occupied_empty_run(n: nat)
    ensures
        count_occupied(empty_run(n)) == 0,
    decreases n,
{
    if n == 0 {
    } else {
        assert(empty_run(n).drop_first() =~= empty_run((n - 1) as nat));
        lemma_count_occupied_empty_run((n - 1) as nat);
    }
}

/// Letter count distributes over concatenation.
pub proof fn lemma_count_letters_concat(a: Seq<char>, b: Seq<char>)
    ensures
        count_letters(a + b) == count_letters(a) + count_letters(b),
    decreases a.len(),
{
    if a.len() == 0 {
        assert(a + b =~= b);
    } else {
        assert((a + b)[0] == a[0]);
        assert((a + b).drop_first() =~= a.drop_first() + b);
        lemma_count_letters_concat(a.drop_first(), b);
    }
}

} // verus!
