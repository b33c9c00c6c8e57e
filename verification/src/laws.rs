//! The laws of the position representation and of the codec, stated and
//! proved once and for all over the spec-level model.

use vstd::prelude::*;

use crate::fen;
use crate::fen::FenError;
use crate::game::CastlingRights;
use crate::game::PosView;
use crate::pieces::is_ascii_letter;
use crate::pieces::lemma_piece_char_from_char;
use crate::pieces::parse_color;
use crate::pieces::piece_char;
use crate::pieces::piece_from_char;
use crate::pieces::ChessPiece;
use crate::pieces::Color;

verus! {

/// The set of square indices of `b` that hold exactly the piece `target`:
/// the bit-set of one piece/color combination.
pub open spec fn mask_of(b: Seq<Option<ChessPiece>>, target: ChessPiece) -> Set<int> {
    Set::new(|i: int| 0 <= i < b.len() && b[i] == Some(target))
}

/// Law: the twelve piece/color bit-sets of any board are pairwise
/// disjoint — no square is ever claimed by two of them. This holds by
/// representation: a square holds at most one occupant.
pub proof fn lemma_masks_disjoint(b: Seq<Option<ChessPiece>>, p: ChessPiece, q: ChessPiece)
    requires
        p != q,
    ensures
        mask_of(b, p).disjoint(mask_of(b, q)),
{
    assert forall|i: int| mask_of(b, p).contains(i) implies !mask_of(b, q).contains(i) by {
        assert(b[i] == Some(p));
    }
}

/// Law: every claimed square index is in range — each bit-set only holds
/// indices below the board length (64 for a well-formed board).
pub proof fn lemma_mask_in_range(b: Seq<Option<ChessPiece>>, target: ChessPiece, i: int)
    requires
        mask_of(b, target).contains(i),
    ensures
        0 <= i < b.len(),
{
}

/// A rank accepted by the rank parser always accounts for exactly eight
/// squares.
pub proof fn lemma_parse_rank_len(s: Seq<char>, acc: Seq<Option<ChessPiece>>, r: Seq<
    Option<ChessPiece>,
>)
    requires
        fen::parse_rank_from(s, acc) == Ok::<Seq<Option<ChessPiece>>, FenError>(r),
    ensures
        r.len() == 8,
    decreases s.len(),
{
    if s.len() == 0 {
    } else {
        match piece_from_char(s[0]) {
            Some(cp) => {
                lemma_parse_rank_len(s.drop_first(), acc.push(Some(cp)), r);
            },
            None => {
                if !is_ascii_letter(s[0]) && fen::is_digit(s[0]) && fen::digit_val(s[0]) >= 1
                    && acc.len() + fen::digit_val(s[0]) <= 8 {
                    lemma_parse_rank_len(
                        s.drop_first(),
                        acc + fen::empty_run(fen::digit_val(s[0]) as nat),
                        r,
                    );
                }
            },
        }
    }
}

/// A placement accepted by the rank-list parser has eight squares for each
/// accepted rank group.
pub proof fn lemma_parse_ranks_len(groups: Seq<Seq<char>>, acc: Seq<Option<ChessPiece>>, r: Seq<
    Option<ChessPiece>,
>)
    requires
        fen::parse_ranks(groups, acc) == Ok::<Seq<Option<ChessPiece>>, FenError>(r),
    ensures
        r.len() == acc.len() + 8 * groups.len(),
    decreases groups.len(),
{
    if groups.len() == 0 {
    } else {
        match fen::parse_rank(groups[0]) {
            Ok(rr) => {
                lemma_parse_rank_len(groups[0], Seq::<Option<ChessPiece>>::empty(), rr);
                lemma_parse_ranks_len(groups.drop_first(), acc + rr, r);
            },
            Err(_) => {
            },
        }
    }
}

/// Law: a position accepted by FEN decoding is complete — 64 squares, an
/// in-range en-passant target, and exactly one king per color.
pub proof fn lemma_decode_complete(s: Seq<char>, v: PosView)
    requires
        fen::fen_decode(s) == Ok::<PosView, FenError>(v),
    ensures
        fen::view_complete(v),
{
    let fields = fen::split_on(s, ' ');
    match fen::parse_placement(fields[0]) {
        Ok(b) => {
            let groups = fen::split_on(fields[0], '/');
            lemma_parse_ranks_len(groups, Seq::<Option<ChessPiece>>::empty(), b);
        },
        Err(_) => {
            assert(false);
        },
    }
}

/// Counting occupied squares distributes over pushing one square.
proof fn lemma_count_occupied_push(b: Seq<Option<ChessPiece>>, x: Option<ChessPiece>)
    ensures
        fen::count_occupied(b.push(x)) == fen::count_occupied(b) + (if x is Some {
            1nat
        } else {
            0nat
        }),
{
    assert(b.push(x) =~= b + seq![x]);
    fen::lemma_count_occupied_concat(b, seq![x]);
    assert(seq![x].drop_first() =~= Seq::<Option<ChessPiece>>::empty());
    assert(fen::count_occupied(Seq::<Option<ChessPiece>>::empty()) == 0);
    assert(seq![x][0] == x);
    assert(fen::count_occupied(seq![x]) == (if x is Some {
        1nat
    } else {
        0nat
    }));
}

/// Each accepted rank holds exactly as many pieces as its group has
/// letters.
pub proof fn lemma_rank_count(s: Seq<char>, acc: Seq<Option<ChessPiece>>, r: Seq<
    Option<ChessPiece>,
>)
    requires
        fen::parse_rank_from(s, acc) == Ok::<Seq<Option<ChessPiece>>, FenError>(r),
    ensures
        fen::count_occupied(r) == fen::count_occupied(acc) + fen::count_letters(s),
    decreases s.len(),
{
    if s.len() == 0 {
    } else {
        let c = s[0];
        match piece_from_char(c) {
            Some(cp) => {
                assert(is_ascii_letter(c));
                lemma_count_occupied_push(acc, Some(cp));
                lemma_rank_count(s.drop_first(), acc.push(Some(cp)), r);
            },
            None => {
                if !is_ascii_letter(c) && fen::is_digit(c) && fen::digit_val(c) >= 1 && acc.len()
                    + fen::digit_val(c) <= 8 {
                    let run = fen::empty_run(fen::digit_val(c) as nat);
                    fen::lemma_count_occupied_concat(acc, run);
                    fen::lemma_count_occupied_empty_run(fen::digit_val(c) as nat);
                    lemma_rank_count(s.drop_first(), acc + run, r);
                }
            },
        }
    }
}

/// An accepted rank list holds exactly as many pieces as its joined groups
/// have letters.
pub proof fn lemma_ranks_count(groups: Seq<Seq<char>>, acc: Seq<Option<ChessPiece>>, r: Seq<
    Option<ChessPiece>,
>)
    requires
        fen::parse_ranks(groups, acc) == Ok::<Seq<Option<ChessPiece>>, FenError>(r),
        groups.len() >= 1,
    ensures
        fen::count_occupied(r) == fen::count_occupied(acc) + fen::count_letters(
            fen::join_with(groups, '/'),
        ),
    decreases groups.len(),
{
    match fen::parse_rank(groups[0]) {
        Ok(rr) => {
            lemma_rank_count(groups[0], Seq::<Option<ChessPiece>>::empty(), rr);
            fen::lemma_count_occupied_concat(acc, rr);
            if groups.len() == 1 {
                assert(fen::join_with(groups, '/') == groups[0]);
                assert(fen::parse_ranks(groups.drop_first(), acc + rr) == Ok::<
                    Seq<Option<ChessPiece>>,
                    FenError,
                >(acc + rr));
            } else {
                lemma_ranks_count(groups.drop_first(), acc + rr, r);
                let j = fen::join_with(groups.drop_first(), '/');
                assert(fen::join_with(groups, '/') == groups[0] + (seq!['/'] + j));
                fen::lemma_count_letters_concat(groups[0], seq!['/'] + j);
                fen::lemma_count_letters_concat(seq!['/'], j);
                assert(!is_ascii_letter('/'));
                assert(seq!['/'].drop_first() =~= Seq::<char>::empty());
                assert(fen::count_letters(Seq::<char>::empty()) == 0);
                assert(seq!['/'][0] == '/');
                assert(fen::count_letters(seq!['/']) == 0);
            }
        },
        Err(_) => {
        },
    }
}

/// Law (square count): a decoded position holds exactly one piece for each
/// piece letter of the placement field it was decoded from — the total of
/// the twelve bit-set cardinalities equals the letter count of the input.
pub proof fn lemma_square_count(s: Seq<char>, v: PosView)
    requires
        fen::fen_decode(s) == Ok::<PosView, FenError>(v),
    ensures
        fen::count_occupied(v.board) == fen::count_letters(fen::split_on(s, ' ')[0]),
{
    let p = fen::split_on(s, ' ')[0];
    match fen::parse_placement(p) {
        Ok(b) => {
            let groups = fen::split_on(p, '/');
            fen::lemma_join_split(p, '/');
            lemma_ranks_count(groups, Seq::<Option<ChessPiece>>::empty(), b);
        },
        Err(_) => {
            assert(false);
        },
    }
}

/// The total of the twelve per-combination piece counts of a board: one
/// count for each (piece, color) bit-set.
pub open spec fn sum_piece_counts(b: Seq<Option<ChessPiece>>) -> nat {
    fen::count_piece(b, ChessPiece { piece: crate::pieces::Piece::Pawn, color: Color::White })
        + fen::count_piece(
        b,
        ChessPiece { piece: crate::pieces::Piece::Knight, color: Color::White },
    ) + fen::count_piece(
        b,
        ChessPiece { piece: crate::pieces::Piece::Bishop, color: Color::White },
    ) + fen::count_piece(
        b,
        ChessPiece { piece: crate::pieces::Piece::Rook, color: Color::White },
    ) + fen::count_piece(
        b,
        ChessPiece { piece: crate::pieces::Piece::Queen, color: Color::White },
    ) + fen::count_piece(
        b,
        ChessPiece { piece: crate::pieces::Piece::King, color: Color::White },
    ) + fen::count_piece(
        b,
        ChessPiece { piece: crate::pieces::Piece::Pawn, color: Color::Black },
    ) + fen::count_piece(
        b,
        ChessPiece { piece: crate::pieces::Piece::Knight, color: Color::Black },
    ) + fen::count_piece(
        b,
        ChessPiece { piece: crate::pieces::Piece::Bishop, color: Color::Black },
    ) + fen::count_piece(
        b,
        ChessPiece { piece: crate::pieces::Piece::Rook, color: Color::Black },
    ) + fen::count_piece(
        b,
        ChessPiece { piece: crate::pieces::Piece::Queen, color: Color::Black },
    ) + fen::count_piece(
        b,
        ChessPiece { piece: crate::pieces::Piece::King, color: Color::Black },
    )
}

/// Law: the twelve bit-set counts add up to the number of occupied
/// squares — every occupant lies in exactly one bit-set, so the square
/// count of [`lemma_square_count`] is the total number of set bits across
/// all twelve masks.
pub proof fn lemma_sum_piece_counts(b: Seq<Option<ChessPiece>>)
    ensures
        sum_piece_counts(b) == fen::count_occupied(b),
    decreases b.len(),
{
    if b.len() == 0 {
    } else {
        lemma_sum_piece_counts(b.drop_first());
        match b[0] {
            None => {
            },
            Some(cp) => {
                match cp.piece {
                    crate::pieces::Piece::Pawn => {
                        assert(cp == ChessPiece { piece: cp.piece, color: cp.color });
                    },
                    crate::pieces::Piece::Knight => {
                        assert(cp == ChessPiece { piece: cp.piece, color: cp.color });
                    },
                    crate::pieces::Piece::Bishop => {
                        assert(cp == ChessPiece { piece: cp.piece, color: cp.color });
                    },
                    crate::pieces::Piece::Rook => {
                        assert(cp == ChessPiece { piece: cp.piece, color: cp.color });
                    },
                    crate::pieces::Piece::Queen => {
                        assert(cp == ChessPiece { piece: cp.piece, color: cp.color });
                    },
                    crate::pieces::Piece::King => {
                        assert(cp == ChessPiece { piece: cp.piece, color: cp.color });
                    },
                }
            },
        }
    }
}

/// Every character a rank group encoder emits is a piece letter or a run
/// digit, so never a rank or field separator.
pub proof fn lemma_encode_rank_chars(rest: Seq<Option<ChessPiece>>, pending: nat)
    ensures
        forall|i: int|
            0 <= i < fen::encode_rank_from(rest, pending).len() ==> (#[trigger] fen::encode_rank_from(
                rest,
                pending,
            )[i]) != '/' && fen::encode_rank_from(rest, pending)[i] != ' ',
    decreases rest.len(),
{
    let e = fen::encode_rank_from(rest, pending);
    if rest.len() == 0 {
        assert forall|i: int| 0 <= i < e.len() implies e[i] != '/' && e[i] != ' ' by {
            assert(pending > 0);
            assert(e[i] == fen::digit_char(pending as int));
        }
    } else {
        match rest[0] {
            None => {
                lemma_encode_rank_chars(rest.drop_first(), pending + 1);
                let e2 = fen::encode_rank_from(rest.drop_first(), pending + 1);
                assert forall|i: int| 0 <= i < e.len() implies e[i] != '/' && e[i] != ' ' by {
                    assert(e == e2);
                    assert(e[i] == e2[i]);
                }
            },
            Some(cp) => {
                lemma_encode_rank_chars(rest.drop_first(), 0);
                let pre: Seq<char> = if pending == 0 {
                    Seq::<char>::empty()
                } else {
                    seq![fen::digit_char(pending as int)]
                };
                let tail = fen::encode_rank_from(rest.drop_first(), 0);
                assert forall|i: int| 0 <= i < e.len() implies e[i] != '/' && e[i] != ' ' by {
                    assert(e == pre + seq![piece_char(cp)] + tail);
                    if i < pre.len() {
                        assert(e[i] == pre[i]);
                    } else if i < pre.len() + 1 {
                        assert(e[i] == piece_char(cp));
                    } else {
                        assert(e[i] == tail[i - pre.len() - 1]);
                    }
                }
            },
        }
    }
}

/// A character of a join is a character of some field, or the separator.
pub proof fn lemma_join_chars(fields: Seq<Seq<char>>, sep: char, bad: char)
    requires
        sep != bad,
        forall|f: int, i: int|
            0 <= f < fields.len() && 0 <= i < fields[f].len() ==> fields[f][i] != bad,
    ensures
        forall|i: int|
            0 <= i < fen::join_with(fields, sep).len() ==> (#[trigger] fen::join_with(
                fields,
                sep,
            )[i]) != bad,
    decreases fields.len(),
{
    let j = fen::join_with(fields, sep);
    if fields.len() == 0 {
    } else if fields.len() == 1 {
        assert forall|i: int| 0 <= i < j.len() implies j[i] != bad by {
            assert(j[i] == fields[0][i]);
        }
    } else {
        assert forall|f: int, i: int|
            0 <= f < fields.drop_first().len() && 0 <= i < fields.drop_first()[f].len() implies
            fields.drop_first()[f][i] != bad by {
            assert(fields.drop_first()[f] == fields[f + 1]);
        }
        lemma_join_chars(fields.drop_first(), sep, bad);
        let rest = fen::join_with(fields.drop_first(), sep);
        assert forall|i: int| 0 <= i < j.len() implies j[i] != bad by {
            assert(j == fields[0] + seq![sep] + rest);
            if i < fields[0].len() {
                assert(j[i] == fields[0][i]);
            } else if i < fields[0].len() + 1 {
                assert(j[i] == sep);
            } else {
                assert(j[i] == rest[i - fields[0].len() - 1]);
            }
        }
    }
}

/// A printed rank group reads back as exactly the squares it printed,
/// preceded by the pending run it was handed.
pub proof fn lemma_rank_round_trip(
    rest: Seq<Option<ChessPiece>>,
    pending: nat,
    acc: Seq<Option<ChessPiece>>,
)
    requires
        acc.len() + pending + rest.len() == 8,
    ensures
        fen::parse_rank_from(fen::encode_rank_from(rest, pending), acc) == Ok::<
            Seq<Option<ChessPiece>>,
            FenError,
        >(acc + fen::empty_run(pending) + rest),
    decreases rest.len(),
{
    let target = acc + fen::empty_run(pending) + rest;
    let e = fen::encode_rank_from(rest, pending);
    if rest.len() == 0 {
        if pending == 0 {
            assert(e =~= Seq::<char>::empty());
            assert(target =~= acc);
        } else {
            let c = fen::digit_char(pending as int);
            assert(e == seq![c]);
            assert(fen::is_digit(c) && fen::digit_val(c) == pending);
            assert(piece_from_char(c) is None);
            assert(!is_ascii_letter(c));
            assert(e.drop_first() =~= Seq::<char>::empty());
            let acc2 = acc + fen::empty_run(pending);
            assert(acc2.len() == 8);
            assert(fen::parse_rank_from(e, acc) == fen::parse_rank_from(
                e.drop_first(),
                acc + fen::empty_run(fen::digit_val(c) as nat),
            ));
            assert(target =~= acc2);
        }
    } else {
        match rest[0] {
            None => {
                lemma_rank_round_trip(rest.drop_first(), pending + 1, acc);
                assert(e == fen::encode_rank_from(rest.drop_first(), pending + 1));
                assert(acc + fen::empty_run(pending + 1) + rest.drop_first() =~= target);
            },
            Some(cp) => {
                let pre: Seq<char> = if pending == 0 {
                    Seq::<char>::empty()
                } else {
                    seq![fen::digit_char(pending as int)]
                };
                let tail = fen::encode_rank_from(rest.drop_first(), 0);
                let pc = piece_char(cp);
                assert(e == pre + seq![pc] + tail);
                let acc2 = acc + fen::empty_run(pending);
                let e2 = seq![pc] + tail;
                if pending > 0 {
                    let c = fen::digit_char(pending as int);
                    assert(fen::is_digit(c) && fen::digit_val(c) == pending);
                    assert(piece_from_char(c) is None);
                    assert(!is_ascii_letter(c));
                    assert(e[0] == c);
                    assert(acc.len() + pending <= 8);
                    assert(e.drop_first() =~= e2);
                    assert(fen::parse_rank_from(e, acc) == fen::parse_rank_from(
                        e.drop_first(),
                        acc + fen::empty_run(fen::digit_val(c) as nat),
                    ));
                } else {
                    assert(acc2 =~= acc);
                    assert(e =~= e2);
                }
                lemma_piece_char_from_char(cp);
                assert(e2[0] == pc);
                assert(e2.drop_first() =~= tail);
                assert(fen::parse_rank_from(e2, acc2) == fen::parse_rank_from(
                    tail,
                    acc2.push(Some(cp)),
                ));
                lemma_rank_round_trip(rest.drop_first(), 0, acc2.push(Some(cp)));
                assert(acc2.push(Some(cp)) + fen::empty_run(0) + rest.drop_first() =~= target);
            },
        }
    }
}

/// The printed rank groups of a 64-square board read back as exactly that
/// board.
pub proof fn lemma_ranks_round_trip(b: Seq<Option<ChessPiece>>, k: int)
    requires
        b.len() == 64,
        0 <= k <= 8,
    ensures
        fen::parse_ranks(fen::rank_groups(b).subrange(k, 8), b.subrange(0, 8 * k)) == Ok::<
            Seq<Option<ChessPiece>>,
            FenError,
        >(b),
    decreases 8 - k,
{
    let groups = fen::rank_groups(b);
    if k == 8 {
        assert(groups.subrange(8, 8) =~~= Seq::<Seq<char>>::empty());
        assert(b.subrange(0, 64) =~= b);
    } else {
        let tail = groups.subrange(k, 8);
        assert(tail[0] == groups[k]);
        assert(tail.drop_first() =~~= groups.subrange(k + 1, 8));
        let rank = b.subrange(8 * k, 8 * k + 8);
        lemma_rank_round_trip(rank, 0, Seq::<Option<ChessPiece>>::empty());
        assert(Seq::<Option<ChessPiece>>::empty() + fen::empty_run(0) + rank =~= rank);
        assert(fen::parse_rank(groups[k]) == Ok::<Seq<Option<ChessPiece>>, FenError>(rank));
        assert(b.subrange(0, 8 * k) + rank =~= b.subrange(0, 8 * (k + 1)));
        lemma_ranks_round_trip(b, k + 1);
    }
}

/// A printed placement field reads back as exactly the board it printed.
pub proof fn lemma_placement_round_trip(b: Seq<Option<ChessPiece>>)
    requires
        b.len() == 64,
    ensures
        fen::parse_placement(fen::encode_placement(b)) == Ok::<Seq<Option<ChessPiece>>, FenError>(
            b,
        ),
{
    let groups = fen::rank_groups(b);
    assert forall|f: int, i: int|
        0 <= f < groups.len() && 0 <= i < groups[f].len() implies groups[f][i] != '/' by {
        lemma_encode_rank_chars(b.subrange(8 * f, 8 * f + 8), 0);
        assert(groups[f] == fen::encode_rank(b.subrange(8 * f, 8 * f + 8)));
    }
    fen::lemma_split_join(groups, '/');
    assert(groups.subrange(0, 8) =~~= groups);
    assert(b.subrange(0, 0) =~= Seq::<Option<ChessPiece>>::empty());
    lemma_ranks_round_trip(b, 0);
}

/// A printed castling field reads back as exactly the rights it printed.
pub proof fn lemma_castling_round_trip(cr: CastlingRights)
    ensures
        fen::parse_castling(fen::castling_field(cr)) == Ok::<CastlingRights, FenError>(cr),
{
    let s = fen::castling_field(cr);
    if !cr.white_king_side && !cr.white_queen_side && !cr.black_king_side
        && !cr.black_queen_side {
        assert(cr == fen::no_rights());
    } else {
        assert(fen::parse_castling_from(s, fen::no_rights()) == Ok::<CastlingRights, FenError>(
            cr,
        )) by {
            reveal_with_fuel(fen::parse_castling_from, 6);
        }
        assert(s[0] == 'K' || s[0] == 'Q' || s[0] == 'k' || s[0] == 'q');
    }
}

/// A printed en-passant field reads back as exactly the target it printed.
pub proof fn lemma_en_passant_round_trip(ep: Option<u8>)
    requires
        ep matches Some(i) ==> i < 64,
    ensures
        fen::parse_en_passant(fen::en_passant_field(ep)) == Ok::<Option<u8>, FenError>(ep),
{
    match ep {
        None => {
        },
        Some(i) => {
            let f = i as int % 8;
            let rd = 8 - i as int / 8;
            let s = fen::en_passant_field(ep);
            assert(s == seq![fen::file_char(f), fen::digit_char(rd)]);
            assert(fen::is_file_char(fen::file_char(f)));
            assert(fen::file_val(fen::file_char(f)) == f);
            assert(fen::is_rank_char(fen::digit_char(rd)));
            assert(fen::digit_val(fen::digit_char(rd)) == rd);
            assert(fen::square_of(f, rd) == i as int) by {
                vstd::arithmetic::div_mod::lemma_fundamental_div_mod(i as int, 8);
            }
        },
    }
}

/// A printed counter field reads back as exactly the value it printed.
pub proof fn lemma_counter_round_trip(n: u64)
    ensures
        fen::parse_counter(fen::counter_field(n as nat)) == Ok::<u64, FenError>(n),
{
    fen::lemma_counter_field_ok(n as nat);
}

/// Law (round-trip, encode then decode): every complete position survives
/// a trip through its FEN string unchanged.
#[verifier::rlimit(100)]
pub proof fn lemma_encode_decode(v: PosView)
    requires
        fen::view_complete(v),
    ensures
        fen::fen_decode(fen::fen_encode(v)) == Ok::<PosView, FenError>(v),
{
    let p = fen::encode_placement(v.board);
    let f1 = fen::color_field(v.side_to_move);
    let f2 = fen::castling_field(v.castling_rights);
    let f3 = fen::en_passant_field(v.en_passant_target);
    let f4 = fen::counter_field(v.halfmove_clock as nat);
    let f5 = fen::counter_field(v.fullmove_counter as nat);
    let fields = seq![p, f1, f2, f3, f4, f5];
    assert(fen::join_with(fields, ' ') =~= fen::fen_encode(v)) by {
        reveal_with_fuel(fen::join_with, 7);
        assert(fields.drop_first() =~~= seq![f1, f2, f3, f4, f5]);
        assert(seq![f1, f2, f3, f4, f5].drop_first() =~~= seq![f2, f3, f4, f5]);
        assert(seq![f2, f3, f4, f5].drop_first() =~~= seq![f3, f4, f5]);
        assert(seq![f3, f4, f5].drop_first() =~~= seq![f4, f5]);
        assert(seq![f4, f5].drop_first() =~~= seq![f5]);
    }
    fen::lemma_counter_field_ok(v.halfmove_clock as nat);
    fen::lemma_counter_field_ok(v.fullmove_counter as nat);
    assert forall|f: int, i: int|
        0 <= f < fields.len() && 0 <= i < fields[f].len() implies fields[f][i] != ' ' by {
        if f == 0 {
            let groups = fen::rank_groups(v.board);
            assert forall|g: int, j: int|
                0 <= g < groups.len() && 0 <= j < groups[g].len() implies groups[g][j] != ' ' by {
                lemma_encode_rank_chars(v.board.subrange(8 * g, 8 * g + 8), 0);
                assert(groups[g] == fen::encode_rank(v.board.subrange(8 * g, 8 * g + 8)));
            }
            lemma_join_chars(groups, '/', ' ');
        } else if f == 2 {
            assert(fields[f][i] != ' ');
        } else if f == 3 {
            assert(fields[f][i] != ' ');
        } else if f == 4 || f == 5 {
            assert(fen::is_digit(fields[f][i]));
        }
    }
    fen::lemma_split_join(fields, ' ');
    let s = fen::fen_encode(v);
    assert(fen::split_on(s, ' ') =~~= fields);
    lemma_placement_round_trip(v.board);
    assert(parse_color(f1) == Ok::<Color, FenError>(v.side_to_move));
    lemma_castling_round_trip(v.castling_rights);
    lemma_en_passant_round_trip(v.en_passant_target);
    lemma_counter_round_trip(v.halfmove_clock);
    lemma_counter_round_trip(v.fullmove_counter);
    assert(fen::fen_decode(s) == Ok::<PosView, FenError>(v));
}

/// Law (round-trip): a FEN string in canonical form — one that some
/// complete position prints as — decodes, and re-encoding the decoded
/// position yields exactly the input string.
pub proof fn lemma_round_trip(s: Seq<char>, w: PosView)
    requires
        fen::view_complete(w),
        s == fen::fen_encode(w),
    ensures
        fen::fen_decode(s) matches Ok(v) && fen::fen_encode(v) == s,
{
    lemma_encode_decode(w);
}

/// Law (empty-square coalescing): an entirely empty rank prints as the
/// single digit `8`, never as two adjacent run digits.
pub proof fn lemma_empty_rank_encodes_eight()
    ensures
        fen::encode_rank(fen::empty_run(8)) == seq!['8'],
{
    reveal_with_fuel(fen::encode_rank_from, 10);
    assert(fen::empty_run(8).drop_first() =~= fen::empty_run(7));
    assert(fen::empty_run(7).drop_first() =~= fen::empty_run(6));
    assert(fen::empty_run(6).drop_first() =~= fen::empty_run(5));
    assert(fen::empty_run(5).drop_first() =~= fen::empty_run(4));
    assert(fen::empty_run(4).drop_first() =~= fen::empty_run(3));
    assert(fen::empty_run(3).drop_first() =~= fen::empty_run(2));
    assert(fen::empty_run(2).drop_first() =~= fen::empty_run(1));
    assert(fen::empty_run(1).drop_first() =~= fen::empty_run(0));
    assert(fen::encode_rank(fen::empty_run(8)) =~= seq!['8']);
}

} // verus!
