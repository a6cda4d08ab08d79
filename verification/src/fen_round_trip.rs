//! Reading back what FEN output writes: each field's text parses to the
//! value it was written from.
use vstd::prelude::*;

use crate::fen::{
    add_right, all_digits, castling_letter, castling_rook_file, digits_value, file_letter_of,
    home_king_file, is_run_digit, king_file_from, no_rights, parse_board, parse_castling, parse_ep, parse_number,
    parse_row, parse_side, piece_of_letter, rights_of, rook_file_down, rook_file_up, row_cells_of,
    set_right, split,
};
use crate::position::{
    castling_text, decimal, digit_char, empty_run, ep_text, fen_text, parse_fen, piece_letter,
    rank_cells, ranks_text, row_text, turn_text, CastlingRights, PositionView,
};
use crate::types::{group_square, square_name, Color, Piece, PieceKind, Square};

verus! {

/// A text without the separator is a single field.
pub(crate) proof fn lemma_split_single(s: Seq<char>, sep: char)
    requires
        !s.contains(sep),
    ensures
        split(s, sep) == seq![s],
    decreases s.len(),
{
    if s.len() > 0 {
        let t = s.drop_last();
        assert(!t.contains(sep)) by {
            if t.contains(sep) {
                let i = choose|i: int| 0 <= i < t.len() && t[i] == sep;
                assert(s[i] == sep);
            }
        }
        lemma_split_single(t, sep);
        assert(s.last() != sep) by {
            assert(s[s.len() - 1] == s.last());
        }
        assert(split(s, sep) =~= seq![s]) by {
            assert(t.push(s.last()) =~= s);
        }
    } else {
        assert(s =~= Seq::<char>::empty());
    }
}

/// Appending a separator and a field without separators adds one field.
pub(crate) proof fn lemma_split_append(a: Seq<char>, b: Seq<char>, sep: char)
    requires
        !b.contains(sep),
    ensures
        split(a + seq![sep] + b, sep) == split(a, sep).push(b),
    decreases b.len(),
{
    let s = a + seq![sep] + b;
    if b.len() == 0 {
        assert(s.drop_last() =~= a);
        assert(s.last() == sep);
        assert(b =~= Seq::<char>::empty());
        assert(split(s, sep) =~= split(a, sep).push(b));
    } else {
        let t = b.drop_last();
        assert(!t.contains(sep)) by {
            if t.contains(sep) {
                let i = choose|i: int| 0 <= i < t.len() && t[i] == sep;
                assert(b[i] == sep);
            }
        }
        lemma_split_append(a, t, sep);
        assert(s.drop_last() =~= a + seq![sep] + t);
        assert(s.last() == b.last());
        assert(b.last() != sep) by {
            assert(b[b.len() - 1] == b.last());
        }
        let rest = split(a + seq![sep] + t, sep);
        assert(rest.len() == split(a, sep).len() + 1);
        assert(split(s, sep) =~= split(a, sep).push(b)) by {
            assert(t.push(b.last()) =~= b);
        }
    }
}

/// The digit character of `d` reads back as `d`.
pub(crate) proof fn lemma_digit_char(d: int)
    requires
        0 <= d < 10,
    ensures
        digit_char(d) as int == 48 + d,
        '0' <= digit_char(d) <= '9',
        d >= 1 && d <= 8 ==> is_run_digit(digit_char(d)),
        digit_char(d) != ' ',
        digit_char(d) != '/',
{
}

/// Decimal text is made of digits and reads back as the number.
pub(crate) proof fn lemma_decimal(n: nat)
    ensures
        decimal(n).len() > 0,
        all_digits(decimal(n)),
        digits_value(decimal(n)) == n,
        !decimal(n).contains(' '),
    decreases n,
{
    lemma_digit_char((n % 10) as int);
    if n < 10 {
        assert(decimal(n) == seq![digit_char(n as int)]);
        let s = decimal(n);
        assert(s.drop_last() =~= Seq::<char>::empty());
        assert(digits_value(s.drop_last()) == 0);
        assert(s.last() == digit_char(n as int));
        assert(n % 10 == n);
    } else {
        lemma_decimal(n / 10);
        let s = decimal(n);
        let p = decimal(n / 10);
        assert(s == p + seq![digit_char((n % 10) as int)]);
        assert(s.drop_last() =~= p);
        assert(s.last() == digit_char((n % 10) as int));
        assert(digits_value(s) == digits_value(p) * 10 + (n % 10));
        assert((n / 10) * 10 + n % 10 == n);
        assert(all_digits(s)) by {
            assert forall|i: int| 0 <= i < s.len() implies '0' <= #[trigger] s[i] && s[i] <= '9' by {
                if i < p.len() {
                    assert(s[i] == p[i]);
                }
            }
        }
        assert(!s.contains(' ')) by {
            if s.contains(' ') {
                let i = choose|i: int| 0 <= i < s.len() && s[i] == ' ';
                if i < p.len() {
                    assert(s[i] == p[i]);
                }
            }
        }
    }
}

/// A number up to 65535 written in decimal reads back as itself.
pub(crate) proof fn lemma_number_round_trip(n: u16)
    ensures
        parse_number(decimal(n as nat)) == Some(n),
{
    lemma_decimal(n as nat);
}

/// A piece letter reads back as its piece and is no digit.
pub(crate) proof fn lemma_piece_letter(p: Piece)
    ensures
        piece_of_letter(piece_letter(p)) == Some(p),
        !is_run_digit(piece_letter(p)),
        piece_letter(p) != ' ',
        piece_letter(p) != '/',
{
}

/// The cells read from `c` appended to a text.
proof fn lemma_row_cells_push(pre: Seq<char>, c: char)
    ensures
        row_cells_of(pre.push(c)) == match row_cells_of(pre) {
            None => None,
            Some(cells) => if is_run_digit(c) {
                if cells.len() + (c as int - 48) <= 8 {
                    Some(cells + Seq::new((c as int - 48) as nat, |j: int| None::<Piece>))
                } else {
                    None
                }
            } else {
                match piece_of_letter(c) {
                    Some(p) => if cells.len() < 8 {
                        Some(cells.push(Some(p)))
                    } else {
                        None
                    },
                    None => None,
                }
            },
        },
{
    assert(pre.push(c).drop_last() =~= pre);
}

/// `n` empty cells.
pub(crate) open spec fn empties(n: int) -> Seq<Option<Piece>> {
    Seq::new(n as nat, |j: int| None::<Piece>)
}

/// Reading the text of `cells` (with `e` empty squares pending before them)
/// after a text that read as `acc` gives `acc`, the pending empties and
/// `cells`.
proof fn lemma_row_parse(pre: Seq<char>, acc: Seq<Option<Piece>>, cells: Seq<Option<Piece>>, e: int)
    requires
        row_cells_of(pre) == Some(acc),
        0 <= e,
        acc.len() + e + cells.len() <= 8,
    ensures
        row_cells_of(pre + row_text(cells, e)) == Some(acc + empties(e) + cells),
    decreases cells.len(),
{
    if cells.len() == 0 {
        if e > 0 {
            lemma_digit_char(e);
            assert(pre + row_text(cells, e) =~= pre.push(digit_char(e)));
            lemma_row_cells_push(pre, digit_char(e));
            assert(acc + empties(e) + cells =~= acc + Seq::new((digit_char(e) as int - 48) as nat, |j: int| None::<Piece>));
        } else {
            assert(pre + row_text(cells, e) =~= pre);
            assert(acc + empties(e) + cells =~= acc);
        }
    } else {
        let rest = cells.drop_first();
        match cells[0] {
            None => {
                lemma_row_parse(pre, acc, rest, e + 1);
                assert(acc + empties(e + 1) + rest =~= acc + empties(e) + cells);
            },
            Some(p) => {
                lemma_piece_letter(p);
                let pre1 = pre + empty_run(e);
                let acc1 = acc + empties(e);
                if e > 0 {
                    lemma_digit_char(e);
                    assert(pre1 =~= pre.push(digit_char(e)));
                    lemma_row_cells_push(pre, digit_char(e));
                    assert(acc1 =~= acc + Seq::new((digit_char(e) as int - 48) as nat, |j: int| None::<Piece>));
                } else {
                    assert(pre1 =~= pre);
                    assert(acc1 =~= acc);
                }
                let pre2 = pre1.push(piece_letter(p));
                lemma_row_cells_push(pre1, piece_letter(p));
                let acc2 = acc1.push(Some(p));
                lemma_row_parse(pre2, acc2, rest, 0);
                assert(pre + row_text(cells, e) =~= pre2 + row_text(rest, 0));
                assert(acc2 + empties(0) + rest =~= acc + empties(e) + cells);
            },
        }
    }
}

/// A row of eight cells, written, reads back as those cells.
pub(crate) proof fn lemma_row_round_trip(cells: Seq<Option<Piece>>)
    requires
        cells.len() == 8,
    ensures
        parse_row(row_text(cells, 0)) == Some(cells),
{
    lemma_row_parse(Seq::empty(), Seq::empty(), cells, 0);
    assert(Seq::<char>::empty() + row_text(cells, 0) =~= row_text(cells, 0));
    assert(Seq::<Option<Piece>>::empty() + empties(0) + cells =~= cells);
}

/// A concatenation holds a character only if one of its parts does.
pub(crate) proof fn lemma_concat_free(a: Seq<char>, b: Seq<char>, c: char)
    requires
        !a.contains(c),
        !b.contains(c),
    ensures
        !(a + b).contains(c),
{
    if (a + b).contains(c) {
        let i = choose|i: int| 0 <= i < (a + b).len() && (a + b)[i] == c;
        if i < a.len() {
            assert(a[i] == c);
        } else {
            assert(b[i - a.len()] == c);
        }
    }
}

/// Row text holds neither spaces nor slashes.
proof fn lemma_row_text_free(cells: Seq<Option<Piece>>, e: int)
    requires
        0 <= e,
        e + cells.len() <= 8,
    ensures
        !row_text(cells, e).contains(' '),
        !row_text(cells, e).contains('/'),
    decreases cells.len(),
{
    if e > 0 {
        lemma_digit_char(e);
    }
    assert(!empty_run(e).contains(' ') && !empty_run(e).contains('/')) by {
        if e > 0 {
            assert(empty_run(e) == seq![digit_char(e)]);
        } else {
            assert(empty_run(e) =~= Seq::<char>::empty());
        }
    }
    if cells.len() > 0 {
        let rest = cells.drop_first();
        match cells[0] {
            None => {
                lemma_row_text_free(rest, e + 1);
            },
            Some(p) => {
                lemma_row_text_free(rest, 0);
                lemma_piece_letter(p);
                let l = seq![piece_letter(p)];
                assert(!l.contains(' ') && !l.contains('/'));
                lemma_concat_free(empty_run(e), l, ' ');
                lemma_concat_free(empty_run(e), l, '/');
                lemma_concat_free(empty_run(e) + l, row_text(rest, 0), ' ');
                lemma_concat_free(empty_run(e) + l, row_text(rest, 0), '/');
            },
        }
    }
}

/// The row texts of the board, rank 8 first.
pub(crate) open spec fn row_texts(board: Seq<Option<Piece>>, n: nat) -> Seq<Seq<char>> {
    Seq::new(n, |k: int| row_text(rank_cells(board, 7 - k), 0))
}

/// The board text splits at the slashes into the row texts, and holds no
/// space.
proof fn lemma_ranks_split(board: Seq<Option<Piece>>, n: nat)
    requires
        board.len() == 64,
        1 <= n <= 8,
    ensures
        split(ranks_text(board, n), '/') == row_texts(board, n),
        !ranks_text(board, n).contains(' '),
    decreases n,
{
    let r = 8 - n;
    let row = row_text(rank_cells(board, r), 0);
    lemma_row_text_free(rank_cells(board, r), 0);
    if n == 1 {
        lemma_split_single(row, '/');
        assert(row_texts(board, n) =~= seq![row]);
    } else {
        lemma_ranks_split(board, (n - 1) as nat);
        let prev = ranks_text(board, (n - 1) as nat);
        lemma_split_append(prev, row, '/');
        assert(row_texts(board, n) =~= row_texts(board, (n - 1) as nat).push(row));
        assert(!seq!['/'].contains(' '));
        lemma_concat_free(prev, seq!['/'], ' ');
        lemma_concat_free(prev + seq!['/'], row, ' ');
    }
}

/// The board text reads back as the board.
pub(crate) proof fn lemma_board_round_trip(board: Seq<Option<Piece>>)
    requires
        board.len() == 64,
    ensures
        parse_board(ranks_text(board, 8)) == Some(board),
        !ranks_text(board, 8).contains(' '),
{
    lemma_ranks_split(board, 8);
    let rows = split(ranks_text(board, 8), '/');
    assert forall|k: int| 0 <= k < 8 implies #[trigger] parse_row(rows[k]) == Some(rank_cells(board, 7 - k)) by {
        lemma_row_round_trip(rank_cells(board, 7 - k));
    }
    assert(Seq::new(64, |i: int| parse_row(rows[7 - i / 8])->0[i % 8]) =~= board) by {
        assert forall|i: int| 0 <= i < 64 implies parse_row(rows[7 - i / 8])->0[i % 8] == board[i] by {
            assert(parse_row(rows[7 - i / 8]) == Some(rank_cells(board, i / 8)));
        }
    }
}

proof fn lemma_rook_file_down(board: Seq<Option<Piece>>, color: Color, k: int, f: int)
    ensures
        rook_file_down(board, color, k, f) matches Some(x) ==> k < x <= f,
    decreases f + 1,
{
    if !(f <= k || f < 0) {
        lemma_rook_file_down(board, color, k, f - 1);
    }
}

proof fn lemma_king_file_from(board: Seq<Option<Piece>>, color: Color, f: int)
    ensures
        king_file_from(board, color, f) matches Some(x) ==> f <= x < 8,
    decreases 8 - f,
{
    if !(f < 0 || f >= 8) {
        lemma_king_file_from(board, color, f + 1);
    }
}

proof fn lemma_rook_file_up(board: Seq<Option<Piece>>, color: Color, k: int, f: int)
    ensures
        rook_file_up(board, color, k, f) matches Some(x) ==> f <= x < k && x < 8,
    decreases k - f,
{
    if !(f >= k || f >= 8) {
        lemma_rook_file_up(board, color, k, f + 1);
    }
}

/// A castling letter reads back as the right it names.
proof fn lemma_castling_letter(r: CastlingRights, board: Seq<Option<Piece>>, color: Color, short: bool)
    ensures
        add_right(r, board, castling_letter(board, color, short)) == set_right(r, color, short),
        castling_letter(board, color, short) != ' ',
        castling_letter(board, color, short) != '-',
{
    match home_king_file(board, color) {
        None => {},
        Some(k) => {
            lemma_king_file_from(board, color, 0);
            lemma_rook_file_down(board, color, k, 7);
            lemma_rook_file_up(board, color, k, 0);
            match castling_rook_file(board, color, k, short) {
                None => {},
                Some(x) => {
                    if !(k == 4 && x == (if short { 7int } else { 0int })) {
                        assert(0 <= x < 8);
                        let c = file_letter_of(color, x);
                        match color {
                            Color::White => {
                                assert(c as int == 65 + x);
                            },
                            Color::Black => {
                                assert(c as int == 97 + x);
                            },
                        }
                    }
                },
            }
        },
    }
}

/// `r` with the named rights cleared.
spec fn rights_upto(r: CastlingRights, wk: bool, wq: bool, bk: bool) -> CastlingRights {
    CastlingRights {
        white_kingside: r.white_kingside && wk,
        white_queenside: r.white_queenside && wq,
        black_kingside: r.black_kingside && bk,
        black_queenside: false,
    }
}

/// Reading one optional letter after a prefix.
proof fn lemma_rights_step(
    pre: Seq<char>,
    board: Seq<Option<Piece>>,
    r0: CastlingRights,
    flag: bool,
    color: Color,
    short: bool,
) -> (next: Seq<char>)
    requires
        rights_of(pre, board) == Some(r0),
        flag ==> set_right(r0, color, short) is Some,
    ensures
        next == pre + if flag {
            seq![castling_letter(board, color, short)]
        } else {
            Seq::<char>::empty()
        },
        rights_of(next, board) == if flag {
            set_right(r0, color, short)
        } else {
            Some(r0)
        },
{
    let next = pre + if flag {
        seq![castling_letter(board, color, short)]
    } else {
        Seq::<char>::empty()
    };
    if flag {
        assert(next.drop_last() =~= pre);
        lemma_castling_letter(r0, board, color, short);
    } else {
        assert(next =~= pre);
    }
    next
}

/// The castling field reads back as the rights it was written from.
proof fn lemma_castling_round_trip(board: Seq<Option<Piece>>, r: CastlingRights)
    ensures
        parse_castling(castling_text(board, r), board) == Some(r),
        !castling_text(board, r).contains(' '),
{
    let e = Seq::<char>::empty();
    let r0 = no_rights();
    let s1 = lemma_rights_step(e, board, r0, r.white_kingside, Color::White, true);
    let r1 = CastlingRights { white_kingside: r.white_kingside, ..r0 };
    let s2 = lemma_rights_step(s1, board, r1, r.white_queenside, Color::White, false);
    let r2 = CastlingRights { white_queenside: r.white_queenside, ..r1 };
    let s3 = lemma_rights_step(s2, board, r2, r.black_kingside, Color::Black, true);
    let r3 = CastlingRights { black_kingside: r.black_kingside, ..r2 };
    let s4 = lemma_rights_step(s3, board, r3, r.black_queenside, Color::Black, false);
    assert(rights_of(s4, board) == Some(r));
    let k = if r.white_kingside { seq![castling_letter(board, Color::White, true)] } else { Seq::<char>::empty() };
    let q = if r.white_queenside { seq![castling_letter(board, Color::White, false)] } else { Seq::<char>::empty() };
    let bk = if r.black_kingside { seq![castling_letter(board, Color::Black, true)] } else { Seq::<char>::empty() };
    let bq = if r.black_queenside { seq![castling_letter(board, Color::Black, false)] } else { Seq::<char>::empty() };
    let s = k + q + bk + bq;
    assert(s4 =~= s);
    lemma_castling_letter(r, board, Color::White, true);
    lemma_castling_letter(r, board, Color::White, false);
    lemma_castling_letter(r, board, Color::Black, true);
    lemma_castling_letter(r, board, Color::Black, false);
    if s.len() == 0 {
        assert(!r.white_kingside && !r.white_queenside && !r.black_kingside && !r.black_queenside);
        assert(!seq!['-'].contains(' ')) by {
            if seq!['-'].contains(' ') {
                assert(seq!['-'][0] == ' ');
            }
        }
    } else {
        assert(s != seq!['-']) by {
            if s == seq!['-'] {
                assert(s[0] == '-');
                assert(s.len() == 1);
            }
        }
        assert(!s.contains(' ')) by {
            if s.contains(' ') {
                let i = choose|i: int| 0 <= i < s.len() && s[i] == ' ';
                assert(s[i] == castling_letter(board, Color::White, true) || s[i] == castling_letter(board, Color::White, false)
                    || s[i] == castling_letter(board, Color::Black, true) || s[i] == castling_letter(board, Color::Black, false));
            }
        }
    }
}

/// The en passant field reads back as the square it was written from.
proof fn lemma_ep_round_trip(ep: Option<Square>)
    requires
        ep matches Some(sq) ==> sq.wf(),
    ensures
        parse_ep(ep_text(ep)) == Some(ep),
        !ep_text(ep).contains(' '),
{
    broadcast use group_square;
    match ep {
        None => {
            assert(ep_text(ep) == seq!['-']);
            assert(parse_ep(seq!['-']) == Some(None::<Square>));
            assert(!seq!['-'].contains(' ')) by {
                if seq!['-'].contains(' ') {
                    assert(seq!['-'][0] == ' ');
                }
            }
        },
        Some(sq) => {
            let i = sq.idx();
            let t = square_name(i);
            assert(t.len() == 2);
            assert(t[0] as int == 97 + i % 8);
            assert(t[1] as int == 49 + i / 8);
            assert(t != seq!['-']);
            assert((t[1] as int - 49) * 8 + (t[0] as int - 97) == i);
            assert(!t.contains(' ')) by {
                if t.contains(' ') {
                    let j = choose|j: int| 0 <= j < t.len() && t[j] == ' ';
                    assert(j == 0 || j == 1);
                }
            }
        },
    }
}

/// The side-to-move field reads back as the side.
proof fn lemma_turn_round_trip(c: Color)
    ensures
        parse_side(turn_text(c)) == Some(c),
        !turn_text(c).contains(' '),
{
    assert(turn_text(c).len() == 1);
    if c == Color::Black {
        assert(turn_text(c) != seq!['w']) by {
            assert(turn_text(c)[0] != seq!['w'][0]);
        }
    }
    assert(!turn_text(c).contains(' ')) by {
        if turn_text(c).contains(' ') {
            assert(turn_text(c)[0] == ' ');
        }
    }
}

/// FEN output of a position reads back as that position.
pub(crate) proof fn lemma_fen_round_trip(v: PositionView)
    requires
        v.board.len() == 64,
        v.ep matches Some(sq) ==> sq.wf(),
    ensures
        parse_fen(fen_text(v)) == Ok::<PositionView, crate::fen::FenError>(v),
{
    let b = ranks_text(v.board, 8);
    let t = turn_text(v.turn);
    let c = castling_text(v.board, v.rights);
    let e = ep_text(v.ep);
    let h = decimal(v.halfmove as nat);
    let f = decimal(v.fullmove as nat);
    lemma_board_round_trip(v.board);
    lemma_turn_round_trip(v.turn);
    lemma_castling_round_trip(v.board, v.rights);
    lemma_ep_round_trip(v.ep);
    lemma_decimal(v.halfmove as nat);
    lemma_decimal(v.fullmove as nat);
    lemma_number_round_trip(v.halfmove);
    lemma_number_round_trip(v.fullmove);
    let sp = seq![' '];
    let a1 = b;
    let a2 = a1 + sp + t;
    let a3 = a2 + sp + c;
    let a4 = a3 + sp + e;
    let a5 = a4 + sp + h;
    let a6 = a5 + sp + f;
    assert(fen_text(v) == a6);
    lemma_split_single(a1, ' ');
    lemma_split_append(a1, t, ' ');
    lemma_split_append(a2, c, ' ');
    lemma_split_append(a3, e, ' ');
    lemma_split_append(a4, h, ' ');
    lemma_split_append(a5, f, ' ');
    let fields = split(fen_text(v), ' ');
    assert(fields =~= seq![b, t, c, e, h, f]);
}

} // verus!
