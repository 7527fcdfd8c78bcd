use vstd::prelude::*;
use vstd::string::StringExecFns;
use crate::bits::{bit, test_bit};
use crate::board::{ChessBoard, Position, TypePiece};
use crate::make_move::lemma_decode_bits;
use crate::rules::{move_from, move_to};

verus! {

/// The letter of a file, `a` for file 0 up to `h` for file 7.
pub open spec fn file_letter(f: int) -> char {
    if f == 0 {
        'a'
    } else if f == 1 {
        'b'
    } else if f == 2 {
        'c'
    } else if f == 3 {
        'd'
    } else if f == 4 {
        'e'
    } else if f == 5 {
        'f'
    } else if f == 6 {
        'g'
    } else {
        'h'
    }
}

/// The digit for a number from 1 to 8.
pub open spec fn digit(n: int) -> char {
    if n == 1 {
        '1'
    } else if n == 2 {
        '2'
    } else if n == 3 {
        '3'
    } else if n == 4 {
        '4'
    } else if n == 5 {
        '5'
    } else if n == 6 {
        '6'
    } else if n == 7 {
        '7'
    } else {
        '8'
    }
}

/// The name of a square: the letter of its file and the number of its rank, which
/// counts from White's side, so that square 0 is `a8` and square 63 is `h1`.
pub open spec fn square_name(s: int) -> Seq<char> {
    seq![file_letter(s % 8), digit(8 - s / 8)]
}

/// The letter of a piece in a FEN string: upper case for White, lower case for Black.
pub open spec fn piece_letter(p: TypePiece) -> char {
    match p {
        TypePiece::WhiteKing => 'K',
        TypePiece::WhiteQueen => 'Q',
        TypePiece::WhiteRook => 'R',
        TypePiece::WhiteBishop => 'B',
        TypePiece::WhiteKnight => 'N',
        TypePiece::WhitePawn => 'P',
        TypePiece::BlackKing => 'k',
        TypePiece::BlackQueen => 'q',
        TypePiece::BlackRook => 'r',
        TypePiece::BlackBishop => 'b',
        TypePiece::BlackKnight => 'n',
        TypePiece::BlackPawn => 'p',
        TypePiece::Empty => '1',
    }
}

/// The digit that closes a run of `run` empty squares, if there is such a run.
pub open spec fn run_digit(run: int) -> Seq<char> {
    if run > 0 {
        seq![digit(run)]
    } else {
        Seq::empty()
    }
}

/// The FEN text of one rank from the file `file` on, after `run` empty squares that
/// still wait for their digit: a letter for each piece, a digit for each run of empty
/// squares.
pub open spec fn fen_rank_from(squares: Seq<TypePiece>, rank: int, file: int, run: int) -> Seq<char>
    decreases 8 - file,
{
    if file >= 8 {
        run_digit(run)
    } else if squares[rank * 8 + file] == TypePiece::Empty {
        fen_rank_from(squares, rank, file + 1, run + 1)
    } else {
        run_digit(run) + seq![piece_letter(squares[rank * 8 + file])] + fen_rank_from(
            squares,
            rank,
            file + 1,
            0,
        )
    }
}

/// The FEN text of the ranks from `rank` on, with a stroke between two ranks.
pub open spec fn fen_ranks_from(squares: Seq<TypePiece>, rank: int) -> Seq<char>
    decreases 8 - rank,
{
    if rank >= 8 {
        Seq::empty()
    } else {
        fen_rank_from(squares, rank, 0, 0) + (if rank < 7 {
            seq!['/']
        } else {
            Seq::empty()
        }) + fen_ranks_from(squares, rank + 1)
    }
}

/// The castling field of a FEN string: the letters of the rights that are left, in the
/// order `KQkq`, or a dash.
pub open spec fn fen_castles(p: Position) -> Seq<char> {
    let rights = (if p.king_side_castle[1] {
        seq!['K']
    } else {
        Seq::empty()
    }) + (if p.queen_side_castle[1] {
        seq!['Q']
    } else {
        Seq::empty()
    }) + (if p.king_side_castle[0] {
        seq!['k']
    } else {
        Seq::empty()
    }) + (if p.queen_side_castle[0] {
        seq!['q']
    } else {
        Seq::empty()
    });
    if rights.len() == 0 {
        seq!['-']
    } else {
        rights
    }
}

/// The first three fields of the FEN string of a position: placement from the eighth
/// rank down, side to move, castling rights.
pub open spec fn fen(p: Position) -> Seq<char> {
    fen_ranks_from(p.squares, 0) + seq![' '] + seq![
        if p.white_to_move {
            'w'
        } else {
            'b'
        },
    ] + seq![' '] + fen_castles(p)
}

/// The number that a digit from `1` to `8` stands for, and 0 for every other character.
pub open spec fn digit_value(c: char) -> int {
    if c == '1' {
        1
    } else if c == '2' {
        2
    } else if c == '3' {
        3
    } else if c == '4' {
        4
    } else if c == '5' {
        5
    } else if c == '6' {
        6
    } else if c == '7' {
        7
    } else if c == '8' {
        8
    } else {
        0
    }
}

/// The piece that a letter of a FEN string stands for.
pub open spec fn letter_piece(c: char) -> TypePiece {
    if c == 'K' {
        TypePiece::WhiteKing
    } else if c == 'Q' {
        TypePiece::WhiteQueen
    } else if c == 'R' {
        TypePiece::WhiteRook
    } else if c == 'B' {
        TypePiece::WhiteBishop
    } else if c == 'N' {
        TypePiece::WhiteKnight
    } else if c == 'P' {
        TypePiece::WhitePawn
    } else if c == 'k' {
        TypePiece::BlackKing
    } else if c == 'q' {
        TypePiece::BlackQueen
    } else if c == 'r' {
        TypePiece::BlackRook
    } else if c == 'b' {
        TypePiece::BlackBishop
    } else if c == 'n' {
        TypePiece::BlackKnight
    } else if c == 'p' {
        TypePiece::BlackPawn
    } else {
        TypePiece::Empty
    }
}

/// `n` empty squares.
pub open spec fn empty_squares(n: int) -> Seq<TypePiece> {
    Seq::new(n as nat, |i: int| TypePiece::Empty)
}

/// The squares that one character of a placement stands for: as many empty squares as a
/// digit says, the piece of a letter, and none for the stroke between two ranks.
pub open spec fn char_squares(c: char) -> Seq<TypePiece> {
    if c == '/' {
        Seq::empty()
    } else if digit_value(c) > 0 {
        empty_squares(digit_value(c))
    } else {
        seq![letter_piece(c)]
    }
}

/// The squares that the text of a placement, or of a part of one, stands for, read from
/// the left.
pub open spec fn text_squares(text: Seq<char>) -> Seq<TypePiece>
    decreases text.len(),
{
    if text.len() == 0 {
        Seq::empty()
    } else {
        char_squares(text[0]) + text_squares(text.subrange(1, text.len() as int))
    }
}

/// Reading a text made of two parts gives the squares of the first, then those of the
/// second.
pub proof fn lemma_text_squares_concat(a: Seq<char>, b: Seq<char>)
    ensures
        text_squares(a + b) == text_squares(a) + text_squares(b),
    decreases a.len(),
{
    if a.len() == 0 {
        assert(a + b =~= b);
        assert(text_squares(a) + text_squares(b) =~= text_squares(b));
    } else {
        let rest = a.subrange(1, a.len() as int);
        lemma_text_squares_concat(rest, b);
        assert((a + b).subrange(1, (a + b).len() as int) =~= rest + b);
        assert((a + b)[0] == a[0]);
        assert(text_squares(a + b) =~= char_squares(a[0]) + (text_squares(rest) + text_squares(
            b,
        )));
        assert(text_squares(a) + text_squares(b) =~= char_squares(a[0]) + (text_squares(rest)
            + text_squares(b)));
    }
}

/// Reading the FEN text of a rank gives back its squares: after `run` empty squares that
/// wait for their digit, the text from the file `file` on stands for those empty squares
/// and the rest of the rank.
pub proof fn lemma_fen_rank_reads_back(squares: Seq<TypePiece>, rank: int, file: int, run: int)
    requires
        squares.len() == 64,
        0 <= rank < 8,
        0 <= run <= file <= 8,
    ensures
        text_squares(fen_rank_from(squares, rank, file, run)) == empty_squares(run)
            + squares.subrange(rank * 8 + file, rank * 8 + 8),
    decreases 8 - file,
{
    let text = fen_rank_from(squares, rank, file, run);
    let tail = squares.subrange(rank * 8 + file, rank * 8 + 8);
    assert(text_squares(run_digit(run)) =~= empty_squares(run)) by {
        if run > 0 {
            let d = run_digit(run);
            assert(d.subrange(1, d.len() as int) =~= Seq::<char>::empty());
            assert(text_squares(d) =~= char_squares(d[0]) + text_squares(Seq::<char>::empty()));
            assert(digit_value(digit(run)) == run);
        }
    }
    if file >= 8 {
        assert(tail =~= Seq::<TypePiece>::empty());
        assert(empty_squares(run) + tail =~= empty_squares(run));
    } else {
        let here = squares[rank * 8 + file];
        let rest = squares.subrange(rank * 8 + file + 1, rank * 8 + 8);
        assert(tail =~= seq![here] + rest);
        if here == TypePiece::Empty {
            lemma_fen_rank_reads_back(squares, rank, file + 1, run + 1);
            assert(empty_squares(run + 1) + rest =~= empty_squares(run) + tail);
        } else {
            lemma_fen_rank_reads_back(squares, rank, file + 1, 0);
            let letter = seq![piece_letter(here)];
            let after = fen_rank_from(squares, rank, file + 1, 0);
            assert(text == run_digit(run) + letter + after);
            lemma_text_squares_concat(run_digit(run) + letter, after);
            lemma_text_squares_concat(run_digit(run), letter);
            assert(letter.subrange(1, letter.len() as int) =~= Seq::<char>::empty());
            assert(text_squares(letter) =~= char_squares(letter[0]) + text_squares(
                Seq::<char>::empty(),
            ));
            assert(digit_value(piece_letter(here)) == 0);
            assert(letter_piece(piece_letter(here)) == here);
            assert(text_squares(letter) =~= seq![here]);
            assert(empty_squares(0) + rest =~= rest);
            assert(empty_squares(run) + seq![here] + rest =~= empty_squares(run) + tail);
        }
    }
}

/// The FEN text of a whole rank stands for the eight squares of that rank.
pub proof fn lemma_fen_rank_is_the_rank(squares: Seq<TypePiece>, rank: int)
    requires
        squares.len() == 64,
        0 <= rank < 8,
    ensures
        text_squares(fen_rank_from(squares, rank, 0, 0)) == squares.subrange(
            rank * 8,
            rank * 8 + 8,
        ),
{
    lemma_fen_rank_reads_back(squares, rank, 0, 0);
    assert(empty_squares(0) + squares.subrange(rank * 8, rank * 8 + 8) =~= squares.subrange(
        rank * 8,
        rank * 8 + 8,
    ));
}

/// Reading the placement from the rank `rank` on gives back the squares from that rank
/// on.
pub proof fn lemma_fen_ranks_read_back(squares: Seq<TypePiece>, rank: int)
    requires
        squares.len() == 64,
        0 <= rank <= 8,
    ensures
        text_squares(fen_ranks_from(squares, rank)) == squares.subrange(rank * 8, 64),
    decreases 8 - rank,
{
    let none = Seq::<char>::empty();
    if rank >= 8 {
        assert(squares.subrange(64, 64) =~= Seq::<TypePiece>::empty());
    } else {
        let row = fen_rank_from(squares, rank, 0, 0);
        let stroke = if rank < 7 {
            seq!['/']
        } else {
            none
        };
        let rest = fen_ranks_from(squares, rank + 1);
        lemma_fen_rank_is_the_rank(squares, rank);
        lemma_fen_ranks_read_back(squares, rank + 1);
        lemma_text_squares_concat(row + stroke, rest);
        lemma_text_squares_concat(row, stroke);
        assert(text_squares(stroke) =~= Seq::<TypePiece>::empty()) by {
            if rank < 7 {
                assert(stroke.subrange(1, stroke.len() as int) =~= none);
                assert(text_squares(stroke) =~= char_squares(stroke[0]) + text_squares(none));
            }
        }
        assert(squares.subrange(rank * 8, rank * 8 + 8) + Seq::<TypePiece>::empty()
            + squares.subrange(rank * 8 + 8, 64) =~= squares.subrange(rank * 8, 64));
    }
}

/// No character of `text` is a blank.
pub open spec fn no_blank(text: Seq<char>) -> bool {
    forall|i: int| 0 <= i < text.len() ==> text[i] != ' '
}

/// The text of a rank holds no blank.
pub proof fn lemma_fen_rank_no_blank(squares: Seq<TypePiece>, rank: int, file: int, run: int)
    requires
        0 <= file <= 8,
    ensures
        no_blank(fen_rank_from(squares, rank, file, run)),
    decreases 8 - file,
{
    if file < 8 {
        if squares[rank * 8 + file] == TypePiece::Empty {
            lemma_fen_rank_no_blank(squares, rank, file + 1, run + 1);
        } else {
            lemma_fen_rank_no_blank(squares, rank, file + 1, 0);
        }
    }
}

/// The placement holds no blank.
pub proof fn lemma_fen_ranks_no_blank(squares: Seq<TypePiece>, rank: int)
    requires
        0 <= rank <= 8,
    ensures
        no_blank(fen_ranks_from(squares, rank)),
    decreases 8 - rank,
{
    if rank < 8 {
        lemma_fen_rank_no_blank(squares, rank, 0, 0);
        lemma_fen_ranks_no_blank(squares, rank + 1);
    }
}

/// Where the first blank of `text` stands; the length of `text` if it holds none.
pub open spec fn first_blank(text: Seq<char>) -> int
    decreases text.len(),
{
    if text.len() == 0 || text[0] == ' ' {
        0
    } else {
        1 + first_blank(text.subrange(1, text.len() as int))
    }
}

/// The first blank of a text that begins with a part without blanks, followed by a
/// blank, stands right behind that part.
pub proof fn lemma_first_blank(head: Seq<char>, tail: Seq<char>)
    requires
        no_blank(head),
    ensures
        first_blank(head + seq![' '] + tail) == head.len(),
    decreases head.len(),
{
    let text = head + seq![' '] + tail;
    if head.len() == 0 {
        assert(text[0] == ' ');
    } else {
        let rest = head.subrange(1, head.len() as int);
        assert(text[0] == head[0]);
        assert(text.subrange(1, text.len() as int) =~= rest + seq![' '] + tail);
        lemma_first_blank(rest, tail);
    }
}

/// The position that a FEN text of three fields stands for: the squares of its
/// placement, the side of its second field, the rights whose letters its third field
/// holds. The text names no en-passant square, so the position has none.
pub open spec fn fen_position(text: Seq<char>) -> Position {
    let n = first_blank(text);
    let castles = text.subrange(n + 3, text.len() as int);
    Position {
        squares: text_squares(text.subrange(0, n)),
        white_to_move: text[n + 1] == 'w',
        king_side_castle: seq![castles.contains('k'), castles.contains('K')],
        queen_side_castle: seq![castles.contains('q'), castles.contains('Q')],
        en_passant: 0,
    }
}

/// A text made of two parts holds a character exactly when one of the parts holds it.
pub proof fn lemma_concat_contains(a: Seq<char>, b: Seq<char>, c: char)
    ensures
        (a + b).contains(c) <==> a.contains(c) || b.contains(c),
{
    if a.contains(c) {
        let i = choose|i: int| 0 <= i < a.len() && a[i] == c;
        assert((a + b)[i] == c);
    }
    if b.contains(c) {
        let j = choose|j: int| 0 <= j < b.len() && b[j] == c;
        assert((a + b)[a.len() + j] == c);
    }
    if (a + b).contains(c) {
        let k = choose|k: int| 0 <= k < (a + b).len() && (a + b)[k] == c;
        if k < a.len() {
            assert(a[k] == c);
        } else {
            assert(b[k - a.len()] == c);
        }
    }
}

/// The letter of a right, if the right is there.
pub open spec fn right_letter(right: bool, letter: char) -> Seq<char> {
    if right {
        seq![letter]
    } else {
        Seq::empty()
    }
}

/// The castling field holds the letter of a right exactly when that right is left.
pub proof fn lemma_castles_letters(p: Position, c: char)
    requires
        c == 'K' || c == 'Q' || c == 'k' || c == 'q',
    ensures
        fen_castles(p).contains(c) == if c == 'K' {
            p.king_side_castle[1]
        } else if c == 'Q' {
            p.queen_side_castle[1]
        } else if c == 'k' {
            p.king_side_castle[0]
        } else {
            p.queen_side_castle[0]
        },
{
    let w = right_letter(p.king_side_castle[1], 'K');
    let x = right_letter(p.queen_side_castle[1], 'Q');
    let y = right_letter(p.king_side_castle[0], 'k');
    let z = right_letter(p.queen_side_castle[0], 'q');
    let rights = w + x + y + z;
    lemma_concat_contains(w + x + y, z, c);
    lemma_concat_contains(w + x, y, c);
    lemma_concat_contains(w, x, c);
    assert(w.contains(c) == (p.king_side_castle[1] && c == 'K')) by {
        if p.king_side_castle[1] {
            assert(w[0] == 'K');
        }
    }
    assert(x.contains(c) == (p.queen_side_castle[1] && c == 'Q')) by {
        if p.queen_side_castle[1] {
            assert(x[0] == 'Q');
        }
    }
    assert(y.contains(c) == (p.king_side_castle[0] && c == 'k')) by {
        if p.king_side_castle[0] {
            assert(y[0] == 'k');
        }
    }
    assert(z.contains(c) == (p.queen_side_castle[0] && c == 'q')) by {
        if p.queen_side_castle[0] {
            assert(z[0] == 'q');
        }
    }
    if rights.len() == 0 {
        let dash = seq!['-'];
        assert(!dash.contains(c));
    }
}

/// Reading the FEN text of a position gives back its squares, its side to move and its
/// castling rights.
pub proof fn lemma_fen_reads_back(p: Position)
    requires
        p.squares.len() == 64,
        p.king_side_castle.len() == 2,
        p.queen_side_castle.len() == 2,
    ensures
        fen_position(fen(p)).squares == p.squares,
        fen_position(fen(p)).white_to_move == p.white_to_move,
        fen_position(fen(p)).king_side_castle == p.king_side_castle,
        fen_position(fen(p)).queen_side_castle == p.queen_side_castle,
{
    let placement = fen_ranks_from(p.squares, 0);
    let side = seq![
        if p.white_to_move {
            'w'
        } else {
            'b'
        },
    ];
    let castles = fen_castles(p);
    let text = fen(p);
    let tail = side + seq![' '] + castles;
    let n = placement.len() as int;
    assert(text =~= placement + seq![' '] + tail);
    lemma_fen_ranks_no_blank(p.squares, 0);
    lemma_first_blank(placement, tail);
    assert(first_blank(text) == n);
    assert(text.subrange(0, n) =~= placement);
    assert(text[n + 1] == side[0]);
    assert(text.subrange(n + 3, text.len() as int) =~= castles);
    lemma_fen_ranks_read_back(p.squares, 0);
    assert(p.squares.subrange(0, 64) =~= p.squares);
    lemma_castles_letters(p, 'K');
    lemma_castles_letters(p, 'Q');
    lemma_castles_letters(p, 'k');
    lemma_castles_letters(p, 'q');
    assert(fen_position(text).king_side_castle =~= p.king_side_castle);
    assert(fen_position(text).queen_side_castle =~= p.queen_side_castle);
}

/// Two positions with the same FEN text have the same squares, the same side to move
/// and the same castling rights.
pub proof fn lemma_fen_decides_position(p: Position, q: Position)
    requires
        p.squares.len() == 64,
        p.king_side_castle.len() == 2,
        p.queen_side_castle.len() == 2,
        q.squares.len() == 64,
        q.king_side_castle.len() == 2,
        q.queen_side_castle.len() == 2,
        fen(p) == fen(q),
    ensures
        p.squares == q.squares,
        p.white_to_move == q.white_to_move,
        p.king_side_castle == q.king_side_castle,
        p.queen_side_castle == q.queen_side_castle,
{
    lemma_fen_reads_back(p);
    lemma_fen_reads_back(q);
}

fn file_str(f: usize) -> (s: &'static str)
    requires
        f < 8,
    ensures
        s@ == seq![file_letter(f as int)],
{
    proof {
        reveal_strlit("a");
        reveal_strlit("b");
        reveal_strlit("c");
        reveal_strlit("d");
        reveal_strlit("e");
        reveal_strlit("f");
        reveal_strlit("g");
        reveal_strlit("h");
    }
    let s = if f == 0 {
        "a"
    } else if f == 1 {
        "b"
    } else if f == 2 {
        "c"
    } else if f == 3 {
        "d"
    } else if f == 4 {
        "e"
    } else if f == 5 {
        "f"
    } else if f == 6 {
        "g"
    } else {
        "h"
    };
    assert(s@ =~= seq![file_letter(f as int)]);
    s
}

fn digit_str(n: usize) -> (s: &'static str)
    requires
        1 <= n <= 8,
    ensures
        s@ == seq![digit(n as int)],
{
    proof {
        reveal_strlit("1");
        reveal_strlit("2");
        reveal_strlit("3");
        reveal_strlit("4");
        reveal_strlit("5");
        reveal_strlit("6");
        reveal_strlit("7");
        reveal_strlit("8");
    }
    let s = if n == 1 {
        "1"
    } else if n == 2 {
        "2"
    } else if n == 3 {
        "3"
    } else if n == 4 {
        "4"
    } else if n == 5 {
        "5"
    } else if n == 6 {
        "6"
    } else if n == 7 {
        "7"
    } else {
        "8"
    };
    assert(s@ =~= seq![digit(n as int)]);
    s
}

fn piece_str(p: TypePiece) -> (s: &'static str)
    ensures
        s@ == seq![piece_letter(p)],
{
    proof {
        reveal_strlit("K");
        reveal_strlit("Q");
        reveal_strlit("R");
        reveal_strlit("B");
        reveal_strlit("N");
        reveal_strlit("P");
        reveal_strlit("k");
        reveal_strlit("q");
        reveal_strlit("r");
        reveal_strlit("b");
        reveal_strlit("n");
        reveal_strlit("p");
        reveal_strlit("1");
    }
    let s = match p {
        TypePiece::WhiteKing => "K",
        TypePiece::WhiteQueen => "Q",
        TypePiece::WhiteRook => "R",
        TypePiece::WhiteBishop => "B",
        TypePiece::WhiteKnight => "N",
        TypePiece::WhitePawn => "P",
        TypePiece::BlackKing => "k",
        TypePiece::BlackQueen => "q",
        TypePiece::BlackRook => "r",
        TypePiece::BlackBishop => "b",
        TypePiece::BlackKnight => "n",
        TypePiece::BlackPawn => "p",
        TypePiece::Empty => "1",
    };
    assert(s@ =~= seq![piece_letter(p)]);
    s
}

/// The name of the square `index`, such as `e4`.
pub fn index_to_square(index: usize) -> (result: String)
    requires
        index < 64,
    ensures
        result@ == square_name(index as int),
{
    let mut result = String::new();
    let x = index % 8;
    let y = index / 8;
    result.append(file_str(x));
    result.append(digit_str(8 - y));
    assert(result@ =~= square_name(index as int));
    result
}

/// The move in coordinate notation: the name of its start square, then that of its
/// target square.
pub fn get_notation_from_move(move_code: u16) -> (s: String)
    ensures
        s@ == square_name(move_from(move_code)) + square_name(move_to(move_code)),
{
    proof {
        lemma_decode_bits(move_code);
    }
    let to_index = move_code & 63;
    let from_index = (move_code >> 6) & 63;
    let to = index_to_square(to_index as usize);
    let mut s = index_to_square(from_index as usize);
    s.append(to.as_str());
    s
}

impl ChessBoard {
    /// The FEN text of the board: placement, side to move and castling rights.
    pub fn get_fen(&self) -> (s: String)
        ensures
            s@ == fen(self@),
    {
        let ghost squares = self@.squares;
        let mut s = String::new();
        let mut y: usize = 0;
        assert(s@ + fen_ranks_from(squares, 0) =~= fen_ranks_from(squares, 0));
        while y < 8
            invariant
                y <= 8,
                squares == self.pieces_by_index@,
                s@ + fen_ranks_from(squares, y as int) == fen_ranks_from(squares, 0),
            decreases 8 - y,
        {
            let ghost start = s@;
            let ghost stroke: Seq<char> = if y < 7 {
                seq!['/']
            } else {
                Seq::empty()
            };
            let mut x: usize = 0;
            let mut run: usize = 0;
            assert(s@ + fen_rank_from(squares, y as int, 0, 0) == start + fen_rank_from(
                squares,
                y as int,
                0,
                0,
            ));
            while x < 8
                invariant
                    x <= 8,
                    y < 8,
                    run <= x,
                    squares == self.pieces_by_index@,
                    s@ + fen_rank_from(squares, y as int, x as int, run as int) == start
                        + fen_rank_from(squares, y as int, 0, 0),
                decreases 8 - x,
            {
                let ghost before = s@;
                let piece = self.pieces_by_index[y * 8 + x];
                if piece == TypePiece::Empty {
                    run += 1;
                } else {
                    let ghost waiting = run as int;
                    if run > 0 {
                        s.append(digit_str(run));
                        run = 0;
                    }
                    s.append(piece_str(piece));
                    assert(s@ + fen_rank_from(squares, y as int, x + 1, 0) =~= before
                        + fen_rank_from(squares, y as int, x as int, waiting));
                }
                x += 1;
            }
            let ghost row_end = s@;
            if run > 0 {
                s.append(digit_str(run));
            }
            assert(s@ =~= start + fen_rank_from(squares, y as int, 0, 0)) by {
                assert(s@ =~= row_end + fen_rank_from(squares, y as int, 8, run as int));
            }
            if y < 7 {
                proof {
                    reveal_strlit("/");
                }
                s.append("/");
                assert("/"@ =~= seq!['/']);
            }
            assert(s@ + fen_ranks_from(squares, y + 1) =~= start + fen_ranks_from(
                squares,
                y as int,
            ));
            y += 1;
        }
        assert(s@ =~= fen_ranks_from(squares, 0));
        proof {
            reveal_strlit(" ");
            reveal_strlit("w");
            reveal_strlit("b");
            reveal_strlit("K");
            reveal_strlit("Q");
            reveal_strlit("k");
            reveal_strlit("q");
            reveal_strlit("-");
        }
        s.append(" ");
        s.append(
            if self.is_white_to_play {
                "w"
            } else {
                "b"
            },
        );
        s.append(" ");
        let ghost head = s@;
        if self.king_side_castle[1] {
            s.append("K");
        }
        if self.queen_side_castle[1] {
            s.append("Q");
        }
        if self.king_side_castle[0] {
            s.append("k");
        }
        if self.queen_side_castle[0] {
            s.append("q");
        }
        if !(self.king_side_castle[1] || self.queen_side_castle[1] || self.king_side_castle[0]
            || self.queen_side_castle[0]) {
            s.append("-");
        }
        assert(s@ =~= head + fen_castles(self@));
        assert(s@ =~= fen(self@));
        s
    }
}

/// A bitboard as text: eight lines of eight binary digits, the highest square first, so
/// that the first line shows the squares 63 down to 56.
pub open spec fn mask_text(mask: u64) -> Seq<char> {
    Seq::new(
        71,
        |p: int|
            if p % 9 == 8 {
                '\n'
            } else if bit(mask, 63 - (p / 9) * 8 - p % 9) {
                '1'
            } else {
                '0'
            },
    )
}

/// The text of a bitboard, as `mask_text` defines it.
pub fn format_mask(mask: u64) -> (s: String)
    ensures
        s@ == mask_text(mask),
{
    let mut s = String::new();
    let mut row: usize = 0;
    proof {
        reveal_strlit("1");
        reveal_strlit("0");
        reveal_strlit("\n");
    }
    assert(s@ =~= mask_text(mask).subrange(0, 0));
    while row < 8
        invariant
            row <= 8,
            "1"@ == seq!['1'],
            "0"@ == seq!['0'],
            "\n"@ == seq!['\n'],
            s@ == mask_text(mask).subrange(0, if row == 8 {
                71int
            } else {
                row * 9
            }),
        decreases 8 - row,
    {
        let mut col: usize = 0;
        while col < 8
            invariant
                col <= 8,
                row < 8,
                "1"@ == seq!['1'],
                "0"@ == seq!['0'],
                s@ == mask_text(mask).subrange(0, row * 9 + col),
            decreases 8 - col,
        {
            let ghost before = s@;
            let ghost p = row * 9 + col;
            if test_bit(mask, 63 - (row * 8 + col)) {
                s.append("1");
            } else {
                s.append("0");
            }
            assert(p % 9 == col && p / 9 == row);
            assert(s@ =~= mask_text(mask).subrange(0, p + 1));
            col += 1;
        }
        if row < 7 {
            let ghost p = row * 9 + 8;
            s.append("\n");
            assert(p % 9 == 8);
            assert(s@ =~= mask_text(mask).subrange(0, p + 1));
        }
        row += 1;
    }
    assert(s@ =~= mask_text(mask));
    s
}

} // verus!
