//! Executable FEN encoding, verified against the model in [`crate::fen`].

use vstd::prelude::*;

use crate::board::Board;
use crate::fen;
use crate::game::CastlingRights;
use crate::pieces::piece_char;
use crate::pieces::ChessPiece;
use crate::pieces::Color;

verus! {

/// Appends a single space, the field separator.
pub(crate) fn push_space(out: &mut String)
    ensures
        final(out)@ == old(out)@ + seq![' '],
{
    proof {
        reveal_strlit(" ");
    }
    out.append(" ");
    proof {
        assert(out@ =~= old(out)@ + seq![' ']);
    }
}

/// Appends the FEN letter of one colored piece to `out`.
pub(crate) fn push_piece(out: &mut String, cp: ChessPiece)
    ensures
        final(out)@ == old(out)@ + seq![piece_char(cp)],
{
    match cp.color {
        Color::White => match cp.piece {
            crate::pieces::Piece::Pawn => {
                proof {
                    reveal_strlit("P");
                }
                out.append("P");
            },
            crate::pieces::Piece::Knight => {
                proof {
                    reveal_strlit("N");
                }
                out.append("N");
            },
            crate::pieces::Piece::Bishop => {
                proof {
                    reveal_strlit("B");
                }
                out.append("B");
            },
            crate::pieces::Piece::Rook => {
                proof {
                    reveal_strlit("R");
                }
                out.append("R");
            },
            crate::pieces::Piece::Queen => {
                proof {
                    reveal_strlit("Q");
                }
                out.append("Q");
            },
            crate::pieces::Piece::King => {
                proof {
                    reveal_strlit("K");
                }
                out.append("K");
            },
        },
        Color::Black => match cp.piece {
            crate::pieces::Piece::Pawn => {
                proof {
                    reveal_strlit("p");
                }
                out.append("p");
            },
            crate::pieces::Piece::Knight => {
                proof {
                    reveal_strlit("n");
                }
                out.append("n");
            },
            crate::pieces::Piece::Bishop => {
                proof {
                    reveal_strlit("b");
                }
                out.append("b");
            },
            crate::pieces::Piece::Rook => {
                proof {
                    reveal_strlit("r");
                }
                out.append("r");
            },
            crate::pieces::Piece::Queen => {
                proof {
                    reveal_strlit("q");
                }
                out.append("q");
            },
            crate::pieces::Piece::King => {
                proof {
                    reveal_strlit("k");
                }
                out.append("k");
            },
        },
    }
    proof {
        assert(out@ =~= old(out)@ + seq![piece_char(cp)]);
    }
}

/// Appends the character of one decimal digit to `out`.
pub(crate) fn push_digit(out: &mut String, d: u64)
    requires
        d < 10,
    ensures
        final(out)@ == old(out)@ + seq![fen::digit_char(d as int)],
{
    if d == 0 {
        proof {
            reveal_strlit("0");
        }
        out.append("0");
    } else if d == 1 {
        proof {
            reveal_strlit("1");
        }
        out.append("1");
    } else if d == 2 {
        proof {
            reveal_strlit("2");
        }
        out.append("2");
    } else if d == 3 {
        proof {
            reveal_strlit("3");
        }
        out.append("3");
    } else if d == 4 {
        proof {
            reveal_strlit("4");
        }
        out.append("4");
    } else if d == 5 {
        proof {
            reveal_strlit("5");
        }
        out.append("5");
    } else if d == 6 {
        proof {
            reveal_strlit("6");
        }
        out.append("6");
    } else if d == 7 {
        proof {
            reveal_strlit("7");
        }
        out.append("7");
    } else if d == 8 {
        proof {
            reveal_strlit("8");
        }
        out.append("8");
    } else {
        proof {
            reveal_strlit("9");
        }
        out.append("9");
    }
    proof {
        assert(out@ =~= old(out)@ + seq![fen::digit_char(d as int)]);
    }
}

/// Appends the base-10 digits of `n` to `out`, most significant first.
pub(crate) fn push_counter(out: &mut String, n: u64)
    ensures
        final(out)@ == old(out)@ + fen::counter_field(n as nat),
    decreases n,
{
    if n < 10 {
        push_digit(out, n);
    } else {
        push_counter(out, n / 10);
        push_digit(out, n % 10);
        proof {
            assert(out@ =~= old(out)@ + fen::counter_field(n as nat));
        }
    }
}

/// Appends one rank of the board as a FEN rank group, coalescing runs of
/// empty squares into single digits.
pub(crate) fn push_rank(out: &mut String, board: &Board, rank: usize)
    requires
        board.wf(),
        rank < 8,
    ensures
        final(out)@ == old(out)@ + fen::encode_rank(
            board@.subrange(8 * rank as int, 8 * rank as int + 8),
        ),
{
    let ghost rs = board@.subrange(8 * rank as int, 8 * rank as int + 8);
    let mut pending: u64 = 0;
    let mut f: usize = 0;
    proof {
        assert(rs.subrange(0, 8) =~= rs);
    }
    while f < 8
        invariant
            f <= 8,
            pending <= f,
            board.wf(),
            rank < 8,
            rs == board@.subrange(8 * rank as int, 8 * rank as int + 8),
            out@ + fen::encode_rank_from(rs.subrange(f as int, 8), pending as nat) == old(
                out,
            )@ + fen::encode_rank(rs),
        decreases 8 - f,
    {
        let ghost rem = rs.subrange(f as int, 8);
        proof {
            assert(rem[0] == rs[f as int]);
            assert(rs[f as int] == board@[8 * rank as int + f as int]);
            assert(rem.drop_first() =~= rs.subrange(f as int + 1, 8));
        }
        let idx = rank * 8 + f;
        match board.piece_at(idx) {
            None => {
                pending = pending + 1;
            },
            Some(cp) => {
                let ghost out0 = out@;
                let ghost pre = if pending == 0 {
                    Seq::<char>::empty()
                } else {
                    seq![fen::digit_char(pending as int)]
                };
                if pending > 0 {
                    push_digit(out, pending);
                }
                push_piece(out, cp);
                proof {
                    assert(out@ =~= out0 + pre + seq![piece_char(cp)]);
                    assert(fen::encode_rank_from(rem, pending as nat) =~= pre + seq![
                        piece_char(cp),
                    ] + fen::encode_rank_from(rem.drop_first(), 0));
                    assert((out0 + pre + seq![piece_char(cp)]) + fen::encode_rank_from(
                        rs.subrange(f as int + 1, 8),
                        0,
                    ) =~= out0 + fen::encode_rank_from(rem, pending as nat));
                }
                pending = 0;
            },
        }
        f = f + 1;
    }
    proof {
        assert(rs.subrange(8, 8) =~= Seq::<Option<ChessPiece>>::empty());
    }
    if pending > 0 {
        push_digit(out, pending);
    }
    proof {
        assert(out@ =~= old(out)@ + fen::encode_rank(rs));
    }
}

/// Appends the whole placement field: the eight rank groups joined by `/`.
pub(crate) fn push_placement(out: &mut String, board: &Board)
    requires
        board.wf(),
    ensures
        final(out)@ == old(out)@ + fen::encode_placement(board@),
{
    let ghost groups = fen::rank_groups(board@);
    push_rank(out, board, 0);
    proof {
        assert(groups[0] == fen::encode_rank(board@.subrange(0, 8)));
        assert(groups.subrange(0, 1) =~~= seq![groups[0]]);
        assert(fen::join_with(groups.subrange(0, 1), '/') == groups[0]);
    }
    let mut r: usize = 1;
    while r < 8
        invariant
            1 <= r <= 8,
            board.wf(),
            groups == fen::rank_groups(board@),
            out@ == old(out)@ + fen::join_with(groups.subrange(0, r as int), '/'),
        decreases 8 - r,
    {
        proof {
            reveal_strlit("/");
        }
        out.append("/");
        push_rank(out, board, r);
        proof {
            fen::lemma_join_push(groups.subrange(0, r as int), groups[r as int], '/');
            assert(groups.subrange(0, r as int).push(groups[r as int]) =~~= groups.subrange(
                0,
                r as int + 1,
            ));
            assert(groups[r as int] == fen::encode_rank(
                board@.subrange(8 * r as int, 8 * r as int + 8),
            ));
            assert(out@ =~= old(out)@ + fen::join_with(groups.subrange(0, r as int + 1), '/'));
        }
        r = r + 1;
    }
    proof {
        assert(groups.subrange(0, 8) =~~= groups);
    }
}

/// Appends the side-to-move field, canonically lowercase.
pub(crate) fn push_color(out: &mut String, c: Color)
    ensures
        final(out)@ == old(out)@ + fen::color_field(c),
{
    match c {
        Color::White => {
            proof {
                reveal_strlit("w");
            }
            out.append("w");
        },
        Color::Black => {
            proof {
                reveal_strlit("b");
            }
            out.append("b");
        },
    }
    proof {
        assert(out@ =~= old(out)@ + fen::color_field(c));
    }
}

/// Appends the castling field in the canonical `KQkq` order.
pub(crate) fn push_castling(out: &mut String, cr: CastlingRights)
    ensures
        final(out)@ == old(out)@ + fen::castling_field(cr),
{
    if !cr.white_king_side && !cr.white_queen_side && !cr.black_king_side
        && !cr.black_queen_side {
        proof {
            reveal_strlit("-");
        }
        out.append("-");
        proof {
            assert(out@ =~= old(out)@ + fen::castling_field(cr));
        }
    } else {
        if cr.white_king_side {
            proof {
                reveal_strlit("K");
            }
            out.append("K");
        }
        if cr.white_queen_side {
            proof {
                reveal_strlit("Q");
            }
            out.append("Q");
        }
        if cr.black_king_side {
            proof {
                reveal_strlit("k");
            }
            out.append("k");
        }
        if cr.black_queen_side {
            proof {
                reveal_strlit("q");
            }
            out.append("q");
        }
        proof {
            assert(out@ =~= old(out)@ + fen::castling_field(cr));
        }
    }
}

/// Appends the file letter of a file number.
pub(crate) fn push_file(out: &mut String, file: u8)
    requires
        file < 8,
    ensures
        final(out)@ == old(out)@ + seq![fen::file_char(file as int)],
{
    if file == 0 {
        proof {
            reveal_strlit("a");
        }
        out.append("a");
    } else if file == 1 {
        proof {
            reveal_strlit("b");
        }
        out.append("b");
    } else if file == 2 {
        proof {
            reveal_strlit("c");
        }
        out.append("c");
    } else if file == 3 {
        proof {
            reveal_strlit("d");
        }
        out.append("d");
    } else if file == 4 {
        proof {
            reveal_strlit("e");
        }
        out.append("e");
    } else if file == 5 {
        proof {
            reveal_strlit("f");
        }
        out.append("f");
    } else if file == 6 {
        proof {
            reveal_strlit("g");
        }
        out.append("g");
    } else {
        proof {
            reveal_strlit("h");
        }
        out.append("h");
    }
    proof {
        assert(out@ =~= old(out)@ + seq![fen::file_char(file as int)]);
    }
}

/// Appends the en-passant field: the algebraic square of the target, or
/// `-`.
pub(crate) fn push_en_passant(out: &mut String, ep: Option<u8>)
    requires
        ep matches Some(i) ==> i < 64,
    ensures
        final(out)@ == old(out)@ + fen::en_passant_field(ep),
{
    match ep {
        None => {
            proof {
                reveal_strlit("-");
            }
            out.append("-");
            proof {
                assert(out@ =~= old(out)@ + fen::en_passant_field(ep));
            }
        },
        Some(i) => {
            let file = i % 8;
            let d = 8 - i / 8;
            push_file(out, file);
            push_digit(out, d as u64);
            proof {
                assert(file as int == i as int % 8);
                assert(d as int == 8 - i as int / 8);
                assert(out@ =~= old(out)@ + fen::en_passant_field(ep));
            }
        },
    }
}

} // verus!
