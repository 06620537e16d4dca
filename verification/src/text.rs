//! Small helpers for building text.

use vstd::prelude::*;
use vstd::string::StringExecFns;

verus! {

/// `String::push` appends the character to the end of the string.
pub assume_specification[ std::string::String::push ](s: &mut std::string::String, c: char)
    ensures
        final(s)@ == old(s)@.push(c),
;

/// The character of a decimal digit.
pub open spec fn digit_char(d: nat) -> char
    recommends
        d < 10,
{
    if d == 0 {
        '0'
    } else if d == 1 {
        '1'
    } else if d == 2 {
        '2'
    } else if d == 3 {
        '3'
    } else if d == 4 {
        '4'
    } else if d == 5 {
        '5'
    } else if d == 6 {
        '6'
    } else if d == 7 {
        '7'
    } else if d == 8 {
        '8'
    } else {
        '9'
    }
}

/// The decimal numeral of a natural number, without leading zeros.
pub open spec fn decimal(n: nat) -> Seq<char>
    decreases n,
{
    if n < 10 {
        seq![digit_char(n)]
    } else {
        decimal(n / 10).push(digit_char(n % 10))
    }
}

fn digit(d: usize) -> (c: char)
    requires
        d < 10,
    ensures
        c == digit_char(d as nat),
{
    if d == 0 {
        '0'
    } else if d == 1 {
        '1'
    } else if d == 2 {
        '2'
    } else if d == 3 {
        '3'
    } else if d == 4 {
        '4'
    } else if d == 5 {
        '5'
    } else if d == 6 {
        '6'
    } else if d == 7 {
        '7'
    } else if d == 8 {
        '8'
    } else {
        '9'
    }
}

/// Appends the decimal numeral of `n` to `out`.
pub fn push_decimal(out: &mut String, n: usize)
    ensures
        final(out)@ == old(out)@ + decimal(n as nat),
    decreases n,
{
    if n < 10 {
        out.push(digit(n));
    } else {
        push_decimal(out, n / 10);
        out.push(digit(n % 10));
    }
}

/// Appends the characters of `text` to `out`.
pub fn push_text(out: &mut String, text: &str)
    ensures
        final(out)@ == old(out)@ + text@,
{
    out.append(text);
}

/// A piece of printed text. A number is kept as the bit pattern of its
/// double: the host gives it its decimal form.
#[derive(Debug, PartialEq, Eq)]
pub enum Piece {
    Text(String),
    Number(u64),
}

/// The mathematical model of a [`Piece`].
pub enum PieceView {
    Text(Seq<char>),
    Number(u64),
}

impl View for Piece {
    type V = PieceView;

    open spec fn view(&self) -> PieceView {
        match self {
            Piece::Text(s) => PieceView::Text(s@),
            Piece::Number(n) => PieceView::Number(*n),
        }
    }
}

/// The models of a sequence of pieces.
pub open spec fn pieces_view(pieces: Seq<Piece>) -> Seq<PieceView> {
    Seq::new(pieces.len(), |i: int| pieces[i]@)
}

/// The one piece that holds the given text.
pub open spec fn text_piece(text: Seq<char>) -> Seq<PieceView> {
    seq![PieceView::Text(text)]
}

/// The models of pieces with one more are the models with one more.
pub proof fn lemma_pieces_view_push(pieces: Seq<Piece>, piece: Piece)
    ensures
        pieces_view(pieces.push(piece)) == pieces_view(pieces).push(piece@),
{
    assert(pieces_view(pieces.push(piece)) =~= pieces_view(pieces).push(piece@));
}

/// Appends a piece that holds `text` to `out`.
pub fn push_piece(out: &mut Vec<Piece>, text: &str)
    ensures
        pieces_view(final(out)@) == pieces_view(old(out)@) + text_piece(text@),
{
    let mut s = String::new();
    push_text(&mut s, text);
    assert(s@ =~= text@);
    let piece = Piece::Text(s);
    proof {
        lemma_pieces_view_push(out@, piece);
    }
    out.push(piece);
    assert(pieces_view(out@) =~= pieces_view(old(out)@) + text_piece(text@));
}

/// Moves the pieces of `more` to the end of `out`.
pub fn append_pieces(out: &mut Vec<Piece>, more: Vec<Piece>)
    ensures
        pieces_view(final(out)@) == pieces_view(old(out)@) + pieces_view(more@),
{
    let mut more = more;
    let ghost added = more@;
    out.append(&mut more);
    assert(pieces_view(out@) =~= pieces_view(old(out)@) + pieces_view(added));
}

} // verus!
