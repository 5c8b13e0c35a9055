use vstd::prelude::*;
use crate::game_data::Piece;
use crate::text::{chars_of, string_of};

verus! {

/// The sign that shows a piece of the given colour on a terminal; a blank for no piece.
pub open spec fn piece_glyph(piece: Piece, is_white: bool) -> Seq<char> {
    match piece {
        Piece::Empty => " "@,
        Piece::Pawn => if is_white {
            "♙"@
        } else {
            "♟"@
        },
        Piece::Knight => if is_white {
            "♘"@
        } else {
            "♞"@
        },
        Piece::Bishop => if is_white {
            "♗"@
        } else {
            "♝"@
        },
        Piece::Rook => if is_white {
            "♖"@
        } else {
            "♜"@
        },
        Piece::Queen => if is_white {
            "♕"@
        } else {
            "♛"@
        },
        Piece::King => if is_white {
            "♔"@
        } else {
            "♚"@
        },
    }
}

/// The sign that shows a piece of the given colour on a terminal.
pub fn get_char(piece: Piece, is_white: bool) -> (glyph: &'static str)
    ensures
        glyph@ == piece_glyph(piece, is_white),
{
    match piece {
        Piece::Empty => " ",
        Piece::Pawn => if is_white {
            "♙"
        } else {
            "♟"
        },
        Piece::Knight => if is_white {
            "♘"
        } else {
            "♞"
        },
        Piece::Bishop => if is_white {
            "♗"
        } else {
            "♝"
        },
        Piece::Rook => if is_white {
            "♖"
        } else {
            "♜"
        },
        Piece::Queen => if is_white {
            "♕"
        } else {
            "♛"
        },
        Piece::King => if is_white {
            "♔"
        } else {
            "♚"
        },
    }
}

/// The line `s` without the line feed at its end and without the carriage return before
/// that one; `s` itself where it does not end with a line feed.
pub open spec fn without_newline(s: Seq<char>) -> Seq<char> {
    if s.len() > 0 && s.last() == '\n' {
        let t = s.drop_last();
        if t.len() > 0 && t.last() == '\r' {
            t.drop_last()
        } else {
            t
        }
    } else {
        s
    }
}

/// Takes the end of the line off `s`.
pub fn trim_newline(s: &mut String)
    ensures
        final(s)@ == without_newline(old(s)@),
{
    let chars = chars_of(s.as_str());
    let n = chars.len();
    if n == 0 || chars[n - 1] != '\n' {
        return ;
    }
    let keep: usize = if n >= 2 && chars[n - 2] == '\r' {
        n - 2
    } else {
        n - 1
    };
    let mut kept: Vec<char> = Vec::new();
    let mut i: usize = 0;
    while i < keep
        invariant
            i <= keep <= chars.len(),
            kept@ == chars@.take(i as int),
        decreases keep - i,
    {
        kept.push(chars[i]);
        assert(chars@.take(i + 1) =~= chars@.take(i as int).push(chars@[i as int]));
        i += 1;
    }
    assert(kept@ =~= without_newline(chars@)) by {
        assert(chars@.drop_last() =~= chars@.take(n - 1));
        if n >= 2 {
            assert(chars@.drop_last().drop_last() =~= chars@.take(n - 2));
        }
    }
    *s = string_of(&kept);
}

} // verus!
