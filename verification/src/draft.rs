//! Generated text with numbers that are still to be written out.
use crate::number::Real;
use vstd::prelude::*;

verus! {

/// A piece of a generated text.
#[derive(Clone, Debug, PartialEq, Eq)]
pub enum Piece {
    Text(String),
    /// A number that is to be written with an exponent and seventeen digits
    /// behind the point.
    Number(Real),
    /// A number that is to be written without an exponent and with seventeen
    /// digits behind the point.
    Fixed(Real),
}

/// A generated text.
#[derive(Clone, Debug, PartialEq, Eq)]
pub struct Draft {
    pub pieces: Vec<Piece>,
}

/// One sign of a generated text: a character, or a number as a whole.
pub enum Sign {
    Letter(char),
    Number(Real),
    Fixed(Real),
}

/// A character as one sign.
pub open spec fn letter(c: char) -> Sign {
    Sign::Letter(c)
}

/// A text, sign by sign.
pub open spec fn letters(s: Seq<char>) -> Seq<Sign> {
    s.map_values(|c: char| letter(c))
}

/// A number with an exponent, as one sign.
pub open spec fn figure(x: Real) -> Seq<Sign> {
    seq![Sign::Number(x)]
}

/// A number without an exponent, as one sign.
pub open spec fn fixed_figure(x: Real) -> Seq<Sign> {
    seq![Sign::Fixed(x)]
}

impl View for Piece {
    type V = Seq<Sign>;

    open spec fn view(&self) -> Seq<Sign> {
        match self {
            Piece::Text(s) => letters(s@),
            Piece::Number(x) => figure(*x),
            Piece::Fixed(x) => fixed_figure(*x),
        }
    }
}

/// The signs of pieces, one after the other.
pub open spec fn signs_of(pieces: Seq<Piece>) -> Seq<Sign>
    decreases pieces.len(),
{
    if pieces.len() == 0 {
        Seq::empty()
    } else {
        signs_of(pieces.drop_last()) + pieces.last()@
    }
}

impl View for Draft {
    type V = Seq<Sign>;

    open spec fn view(&self) -> Seq<Sign> {
        signs_of(self.pieces@)
    }
}

/// The texts of drafts.
pub open spec fn drafts(v: Seq<Draft>) -> Seq<Seq<Sign>> {
    v.map_values(|d: Draft| d@)
}

impl Draft {
    pub fn new() -> (r: Self)
        ensures
            r@ == Seq::<Sign>::empty(),
    {
        Draft { pieces: Vec::new() }
    }

    /// A draft of text alone.
    pub fn of(text: &str) -> (r: Self)
        ensures
            r@ == letters(text@),
    {
        let mut draft = Draft::new();
        draft.text(text);
        assert(draft@ =~= letters(text@));
        draft
    }

    fn push(&mut self, piece: Piece)
        ensures
            final(self)@ == old(self)@ + piece@,
    {
        self.pieces.push(piece);
        assert(self.pieces@.drop_last() =~= old(self).pieces@);
    }

    pub fn text(&mut self, text: &str)
        ensures
            final(self)@ == old(self)@ + letters(text@),
    {
        self.push(Piece::Text(text.to_owned()));
    }

    pub fn number(&mut self, x: Real)
        ensures
            final(self)@ == old(self)@ + figure(x),
    {
        self.push(Piece::Number(x));
    }

    pub fn fixed(&mut self, x: Real)
        ensures
            final(self)@ == old(self)@ + fixed_figure(x),
    {
        self.push(Piece::Fixed(x));
    }

    /// Adds all of another draft.
    pub fn append(&mut self, other: &Draft)
        ensures
            final(self)@ == old(self)@ + other@,
    {
        let mut i: usize = 0;
        assert(signs_of(other.pieces@.take(0)) =~= Seq::<Sign>::empty());
        assert(self@ =~= old(self)@ + signs_of(other.pieces@.take(0)));
        while i < other.pieces.len()
            invariant
                i <= other.pieces@.len(),
                self@ == old(self)@ + signs_of(other.pieces@.take(i as int)),
            decreases other.pieces@.len() - i,
        {
            let ghost before = self@;
            match &other.pieces[i] {
                Piece::Text(s) => self.text(s.as_str()),
                Piece::Number(x) => self.number(*x),
                Piece::Fixed(x) => self.fixed(*x),
            }
            assert(self@ == before + other.pieces@[i as int]@);
            assert(other.pieces@.take(i + 1).drop_last() =~= other.pieces@.take(i as int));
            assert(self@ =~= old(self)@ + signs_of(other.pieces@.take(i + 1)));
            i = i + 1;
        }
        assert(other.pieces@.take(i as int) =~= other.pieces@);
    }
}

/// The first `n` drafts, each on a line of its own, with no end of the last line.
pub open spec fn stacked(lines: Seq<Seq<Sign>>, n: int) -> Seq<Sign>
    decreases n,
{
    if n <= 0 {
        Seq::empty()
    } else if n == 1 {
        lines[0]
    } else {
        stacked(lines, n - 1) + letters("\n"@) + lines[n - 1]
    }
}

/// The drafts, each on a line of its own, with no end of the last line.
pub open spec fn stack_of(lines: Seq<Seq<Sign>>) -> Seq<Sign> {
    stacked(lines, lines.len() as int)
}

pub fn stack(lines: &Vec<Draft>) -> (r: Draft)
    ensures
        r@ == stack_of(drafts(lines@)),
{
    let ghost all = drafts(lines@);
    let mut out = Draft::new();
    if lines.len() == 0 {
        return out;
    }
    out.append(&lines[0]);
    assert(out@ =~= all[0]);
    let mut i: usize = 1;
    while i < lines.len()
        invariant
            1 <= i <= lines@.len(),
            all == drafts(lines@),
            out@ == stacked(all, i as int),
        decreases lines@.len() - i,
    {
        assert(all[i as int] == lines@[i as int]@);
        out.text("\n");
        out.append(&lines[i]);
        i = i + 1;
    }
    out
}

/// Lines of text alone.
pub open spec fn plain_lines(lines: Seq<Seq<char>>) -> Seq<Seq<Sign>> {
    lines.map_values(|l: Seq<char>| letters(l))
}

/// Adds lines of text.
pub fn push_texts(out: &mut Vec<Draft>, lines: &Vec<String>)
    ensures
        drafts(final(out)@) == drafts(old(out)@) + plain_lines(crate::text::texts(lines@)),
{
    let ghost all = plain_lines(crate::text::texts(lines@));
    let ghost start = drafts(out@);
    let mut i: usize = 0;
    assert(drafts(out@) =~= start + all.take(0));
    while i < lines.len()
        invariant
            i <= lines@.len(),
            all == plain_lines(crate::text::texts(lines@)),
            drafts(out@) == start + all.take(i as int),
        decreases lines@.len() - i,
    {
        let ghost before = drafts(out@);
        out.push(Draft::of(lines[i].as_str()));
        assert(all[i as int] == letters(lines@[i as int]@));
        assert(drafts(out@) =~= before.push(all[i as int]));
        assert(all.take(i + 1) =~= all.take(i as int).push(all[i as int]));
        assert(drafts(out@) =~= start + all.take(i + 1));
        i = i + 1;
    }
    assert(all.take(i as int) =~= all);
}

/// Adds one line of text.
pub fn push_text(out: &mut Vec<Draft>, line: &str)
    ensures
        drafts(final(out)@) == drafts(old(out)@).push(letters(line@)),
{
    let ghost before = drafts(out@);
    out.push(Draft::of(line));
    assert(drafts(out@) =~= before.push(letters(line@)));
}

/// Adds lines that are made already.
pub fn push_drafts(out: &mut Vec<Draft>, lines: &Vec<Draft>)
    ensures
        drafts(final(out)@) == drafts(old(out)@) + drafts(lines@),
{
    let ghost all = drafts(lines@);
    let ghost start = drafts(out@);
    let mut i: usize = 0;
    assert(drafts(out@) =~= start + all.take(0));
    while i < lines.len()
        invariant
            i <= lines@.len(),
            all == drafts(lines@),
            drafts(out@) == start + all.take(i as int),
        decreases lines@.len() - i,
    {
        let ghost before = drafts(out@);
        let mut line = Draft::new();
        line.append(&lines[i]);
        assert(line@ =~= all[i as int]);
        out.push(line);
        assert(drafts(out@) =~= before.push(all[i as int]));
        assert(all.take(i + 1) =~= all.take(i as int).push(all[i as int]));
        assert(drafts(out@) =~= start + all.take(i + 1));
        i = i + 1;
    }
    assert(all.take(i as int) =~= all);
}

/// The first `n` drafts with a separator between them.
pub open spec fn linked(parts: Seq<Seq<Sign>>, separator: Seq<char>, n: int) -> Seq<Sign>
    decreases n,
{
    if n <= 0 {
        Seq::empty()
    } else if n == 1 {
        parts[0]
    } else {
        linked(parts, separator, n - 1) + letters(separator) + parts[n - 1]
    }
}

/// The drafts with a separator between them.
pub open spec fn link_of(parts: Seq<Seq<Sign>>, separator: Seq<char>) -> Seq<Sign> {
    linked(parts, separator, parts.len() as int)
}

pub fn link(parts: &Vec<Draft>, separator: &str) -> (r: Draft)
    ensures
        r@ == link_of(drafts(parts@), separator@),
{
    let ghost all = drafts(parts@);
    let mut out = Draft::new();
    if parts.len() == 0 {
        return out;
    }
    out.append(&parts[0]);
    assert(out@ =~= all[0]);
    let mut i: usize = 1;
    while i < parts.len()
        invariant
            1 <= i <= parts@.len(),
            all == drafts(parts@),
            out@ == linked(all, separator@, i as int),
        decreases parts@.len() - i,
    {
        assert(all[i as int] == parts@[i as int]@);
        out.text(separator);
        out.append(&parts[i]);
        i = i + 1;
    }
    out
}

} // verus!
