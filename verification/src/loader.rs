//! The deck loader: parses header-plus-rows tabular text with columns
//! `front,back,hint` into a deck of cards.
//!
//! A line holds comma-separated fields; the first line must be the header
//! `front,back,hint` (a trailing comma is tolerated). Every following line
//! is one card: front, back, and an optional hint, where a missing or
//! empty hint field means the card has none. A final newline is tolerated.
//! The load is atomic: one malformed row fails the whole load, with an
//! error naming the row.
use vstd::prelude::*;

use crate::card::{Card, CardView};
use crate::cards::Cards;
use crate::enums::FlashCardState;
use crate::traits::{FlashCard, FlashCards, Loader};

verus! {

/// Why a load failed: the header line was missing or malformed, or a data
/// row (1 is the first row after the header) had the wrong shape.
#[derive(Clone, Copy, Debug, PartialEq, Eq, Structural)]
pub enum ParseError {
    Header,
    Row { row: usize },
}

/// Splitting `s` at every occurrence of `sep`: always at least one piece,
/// and a separator at the edge yields an empty piece there.
pub open spec fn split_on(s: Seq<char>, sep: char) -> Seq<Seq<char>>
    decreases s.len(),
{
    if s.len() == 0 {
        seq![Seq::<char>::empty()]
    } else if s[0] == sep {
        seq![Seq::<char>::empty()] + split_on(s.drop_first(), sep)
    } else {
        let r = split_on(s.drop_first(), sep);
        seq![seq![s[0]] + r[0]] + r.drop_first()
    }
}

proof fn lemma_split_on_nonempty(s: Seq<char>, sep: char)
    ensures
        split_on(s, sep).len() >= 1,
    decreases s.len(),
{
    if s.len() != 0 && s[0] != sep {
        lemma_split_on_nonempty(s.drop_first(), sep);
    }
}

/// Text without the separator splits into a single piece: itself.
proof fn lemma_split_on_no_sep(s: Seq<char>, sep: char)
    requires
        forall|i: int| 0 <= i < s.len() ==> s[i] != sep,
    ensures
        split_on(s, sep) == seq![s],
    decreases s.len(),
{
    if s.len() == 0 {
        assert(split_on(s, sep) =~~= seq![s]);
    } else {
        lemma_split_on_no_sep(s.drop_first(), sep);
        lemma_split_on_nonempty(s.drop_first(), sep);
        assert(seq![s[0]] + s.drop_first() =~= s);
        assert(split_on(s, sep) =~~= seq![s]);
    }
}

/// Splitting at the first separator: the piece before it, then the split
/// of what follows it.
proof fn lemma_split_on_first_sep(s: Seq<char>, sep: char, j: int)
    requires
        0 <= j < s.len(),
        s[j] == sep,
        forall|i: int| 0 <= i < j ==> s[i] != sep,
    ensures
        split_on(s, sep) == seq![s.take(j)] + split_on(s.skip(j + 1), sep),
    decreases j,
{
    if j == 0 {
        assert(s.drop_first() =~= s.skip(1));
        assert(split_on(s, sep) =~~= seq![s.take(0)] + split_on(s.skip(1), sep));
    } else {
        let t = s.drop_first();
        lemma_split_on_first_sep(t, sep, j - 1);
        lemma_split_on_nonempty(t.skip(j), sep);
        assert(t.skip(j - 1 + 1) =~= s.skip(j + 1));
        let r = split_on(t, sep);
        assert(r == seq![t.take(j - 1)] + split_on(s.skip(j + 1), sep));
        assert(r[0] == t.take(j - 1));
        assert(seq![s[0]] + t.take(j - 1) =~= s.take(j));
        assert(r.drop_first() =~= split_on(s.skip(j + 1), sep));
        assert(split_on(s, sep) =~~= seq![s.take(j)] + split_on(s.skip(j + 1), sep));
    }
}

/// Splits `s` at every occurrence of `sep`.
fn split_text(s: &str, sep: char) -> (r: Vec<String>)
    ensures
        r.deep_view() == split_on(s@, sep),
{
    let n: usize = s.unicode_len();
    let mut fields: Vec<String> = Vec::new();
    let mut start: usize = 0;
    let mut j: usize = 0;
    proof {
        assert(s@.skip(0) =~= s@);
    }
    while j < n
        invariant
            start <= j <= n,
            n == s@.len(),
            forall|i: int| start <= i < j ==> s@[i] != sep,
            fields.deep_view() + split_on(s@.skip(start as int), sep) == split_on(s@, sep),
        decreases n - j,
    {
        if s.get_char(j) == sep {
            let ghost prev = fields.deep_view();
            let piece = String::from_str(s.substring_char(start, j));
            fields.push(piece);
            proof {
                let t = s@.skip(start as int);
                lemma_split_on_first_sep(t, sep, j - start);
                assert(t.take(j - start) =~= s@.subrange(start as int, j as int));
                assert(t.skip(j - start + 1) =~= s@.skip(j + 1));
                assert(fields.deep_view() =~~= prev + seq![s@.subrange(start as int, j as int)]);
                assert(fields.deep_view() + split_on(s@.skip(j + 1), sep) =~~= split_on(s@, sep));
            }
            start = j + 1;
        }
        j = j + 1;
    }
    let ghost prev = fields.deep_view();
    let piece = String::from_str(s.substring_char(start, n));
    fields.push(piece);
    proof {
        let t = s@.skip(start as int);
        lemma_split_on_no_sep(t, sep);
        assert(t =~= s@.subrange(start as int, n as int));
        assert(fields.deep_view() =~~= prev + seq![t]);
        assert(fields.deep_view() =~~= split_on(s@, sep));
    }
    fields
}

/// The lines of the input: split at every newline, a trailing newline
/// (an empty final piece) tolerated.
pub open spec fn lines_of(s: Seq<char>) -> Seq<Seq<char>> {
    let raw = split_on(s, '\n');
    if raw.len() > 0 && raw.last().len() == 0 {
        raw.drop_last()
    } else {
        raw
    }
}

/// A valid header line: fields `front`, `back`, `hint`, at most one
/// trailing empty field.
pub open spec fn header_ok(line: Seq<char>) -> bool {
    let f = split_on(line, ',');
    &&& (f.len() == 3 || f.len() == 4)
    &&& f[0] == "front"@
    &&& f[1] == "back"@
    &&& f[2] == "hint"@
    &&& (f.len() == 4 ==> f[3].len() == 0)
}

/// A valid data row: at least front and back, and no more fields than the
/// header has.
pub open spec fn row_ok(line: Seq<char>, header_len: int) -> bool {
    let f = split_on(line, ',');
    2 <= f.len() <= header_len
}

/// The card a valid data row describes: a missing or empty third field
/// means the card has no hint.
pub open spec fn row_card(line: Seq<char>) -> CardView {
    let f = split_on(line, ',');
    CardView {
        front: f[0],
        back: f[1],
        hint: if f.len() >= 3 && f[2].len() > 0 {
            Some(f[2])
        } else {
            None
        },
        state: FlashCardState::Front,
    }
}

/// The outcome of parsing the data rows `ls`, the first of them numbered
/// `row`: the cards in row order, or the error of the first bad row.
pub open spec fn rows_result(ls: Seq<Seq<char>>, header_len: int, row: int) -> Result<
    Seq<CardView>,
    ParseError,
>
    decreases ls.len(),
{
    if ls.len() == 0 {
        Ok(Seq::empty())
    } else if !row_ok(ls[0], header_len) {
        Err(ParseError::Row { row: row as usize })
    } else {
        match rows_result(ls.drop_first(), header_len, row + 1) {
            Ok(rest) => Ok(seq![row_card(ls[0])] + rest),
            Err(e) => Err(e),
        }
    }
}

/// The cards of the first `k` rows of `ls`, all assumed valid.
pub open spec fn rows_cards(ls: Seq<Seq<char>>, k: int) -> Seq<CardView> {
    Seq::new(k as nat, |m: int| row_card(ls[m]))
}

/// The outcome of a whole load: the header line must be present and
/// valid, and then every data row must parse.
pub open spec fn load_result(s: Seq<char>) -> Result<Seq<CardView>, ParseError> {
    let ls = lines_of(s);
    if ls.len() == 0 || !header_ok(ls[0]) {
        Err(ParseError::Header)
    } else {
        rows_result(ls.drop_first(), split_on(ls[0], ',').len() as int, 1)
    }
}

/// Peeling `k` valid rows off the front of `ls` turns the parse of `ls`
/// into the parse of its remainder, prefixed by those rows' cards.
proof fn lemma_rows_result_prefix(ls: Seq<Seq<char>>, header_len: int, row: int, k: int)
    requires
        0 <= k <= ls.len(),
        forall|m: int| 0 <= m < k ==> row_ok(#[trigger] ls[m], header_len),
    ensures
        rows_result(ls, header_len, row) == match rows_result(ls.skip(k), header_len, row + k) {
            Ok(rest) => Ok(rows_cards(ls, k) + rest),
            Err(e) => Err(e),
        },
    decreases k,
{
    if k == 0 {
        assert(ls.skip(0) =~= ls);
        match rows_result(ls, header_len, row) {
            Ok(rest) => {
                assert(rows_cards(ls, 0) + rest =~= rest);
            },
            Err(_) => {},
        }
    } else {
        assert(row_ok(ls[0], header_len));
        assert(ls.len() > 0);
        let tail = ls.drop_first();
        lemma_rows_result_prefix(tail, header_len, row + 1, k - 1);
        assert(tail.skip(k - 1) =~= ls.skip(k));
        match rows_result(ls.skip(k), header_len, row + k) {
            Ok(rest) => {
                assert(rows_result(tail, header_len, row + 1) == Ok::<_, ParseError>(
                    rows_cards(tail, k - 1) + rest,
                ));
                assert(seq![row_card(ls[0])] + (rows_cards(tail, k - 1) + rest) =~= rows_cards(
                    ls,
                    k,
                ) + rest);
            },
            Err(e) => {
                assert(rows_result(tail, header_len, row + 1) == Err::<Seq<CardView>, _>(e));
            },
        }
    }
}

/// True exactly when `a` holds the same text as `lit`.
fn text_is(a: &String, lit: &str) -> (r: bool)
    ensures
        r == (a@ == lit@),
{
    let s = String::from_str(lit);
    *a == s
}

/// The tabular-text loader.
pub struct Csv {}

impl Loader for Csv {
    /// Parses `data` into a deck: a card per data row, in row order, every
    /// card showing its front. Returns the error [`load_result`] assigns
    /// to malformed input, and a deck exactly when the whole input parses.
    fn load(data: &str) -> (r: Result<Cards<Card>, ParseError>)
        ensures
            match r {
                Ok(deck) => {
                    &&& load_result(data@) is Ok
                    &&& deck@.len() == load_result(data@)->Ok_0.len()
                    &&& forall|i: int|
                        0 <= i < deck@.len() ==> (#[trigger] deck@[i]).card_view() == load_result(
                            data@,
                        )->Ok_0[i]
                },
                Err(e) => load_result(data@) == Err::<Seq<CardView>, ParseError>(e),
            },
    {
        let mut lines = split_text(data, '\n');
        proof {
            lemma_split_on_nonempty(data@, '\n');
        }
        if lines.len() > 0 && lines[lines.len() - 1].as_str().is_empty() {
            let _ = lines.pop();
            proof {
                assert(lines.deep_view() =~~= lines_of(data@));
            }
        } else {
            proof {
                assert(lines.deep_view() =~~= lines_of(data@));
            }
        }
        let ghost lv = lines.deep_view();
        if lines.len() == 0 {
            return Err(ParseError::Header);
        }
        let header_fields = split_text(lines[0].as_str(), ',');
        let hlen: usize = header_fields.len();
        let header_valid = (hlen == 3 || hlen == 4) && text_is(&header_fields[0], "front")
            && text_is(&header_fields[1], "back") && text_is(&header_fields[2], "hint") && (hlen
            == 3 || header_fields[3].as_str().is_empty());
        proof {
            assert(header_fields.deep_view() == split_on(lv[0], ','));
            assert(header_valid == header_ok(lv[0]));
        }
        if !header_valid {
            return Err(ParseError::Header);
        }
        let mut deck: Cards<Card> = Cards::new();
        let mut i: usize = 1;
        while i < lines.len()
            invariant
                1 <= i <= lines.len(),
                lines.deep_view() == lv,
                lv == lines_of(data@),
                lv.len() >= 1,
                hlen as int == split_on(lv[0], ',').len(),
                header_ok(lv[0]),
                deck@.len() == i - 1,
                forall|m: int| 1 <= m < i ==> row_ok(#[trigger] lv[m], hlen as int),
                forall|m: int|
                    0 <= m < i - 1 ==> (#[trigger] deck@[m]).card_view() == row_card(lv[m + 1]),
            decreases lines@.len() - i,
        {
            let fields = split_text(lines[i].as_str(), ',');
            let flen: usize = fields.len();
            proof {
                assert(fields.deep_view() == split_on(lv[i as int], ','));
            }
            if !(2 <= flen && flen <= hlen) {
                proof {
                    assert(!row_ok(lv[i as int], hlen as int));
                    let tail = lv.drop_first();
                    assert(tail =~= lv.skip(1));
                    lemma_rows_result_prefix(tail, hlen as int, 1, i - 1);
                    assert(tail.skip(i - 1) =~= lv.skip(i as int));
                    assert(lv.skip(i as int)[0] == lv[i as int]);
                    assert(rows_result(lv.skip(i as int), hlen as int, i as int) == Err::<
                        Seq<CardView>,
                        ParseError,
                    >(ParseError::Row { row: i }));
                    assert(rows_result(tail, hlen as int, 1) == Err::<Seq<CardView>, ParseError>(
                        ParseError::Row { row: i },
                    ));
                    assert(load_result(data@) == Err::<Seq<CardView>, ParseError>(
                        ParseError::Row { row: i },
                    ));
                }
                return Err(ParseError::Row { row: i });
            }
            let front = fields[0].clone();
            let back = fields[1].clone();
            let card = if flen >= 3 && !fields[2].as_str().is_empty() {
                Card::new(front, back, fields[2].clone())
            } else {
                Card::new_without_hint(front, back)
            };
            deck.add_card(card);
            proof {
                assert(card.card_view() == row_card(lv[i as int]));
            }
            i = i + 1;
        }
        proof {
            let tail = lv.drop_first();
            assert(tail =~= lv.skip(1));
            lemma_rows_result_prefix(tail, hlen as int, 1, tail.len() as int);
            assert(tail.skip(tail.len() as int) =~= Seq::<Seq<char>>::empty());
            assert(rows_result(Seq::<Seq<char>>::empty(), hlen as int, 1 + tail.len() as int) == Ok::<
                Seq<CardView>,
                ParseError,
            >(Seq::empty()));
            assert(rows_cards(tail, tail.len() as int) + Seq::<CardView>::empty() =~= rows_cards(
                tail,
                tail.len() as int,
            ));
            assert(load_result(data@) == Ok::<Seq<CardView>, ParseError>(
                rows_cards(tail, tail.len() as int),
            ));
            assert forall|m: int| 0 <= m < deck@.len() implies (#[trigger] deck@[m]).card_view()
                == load_result(data@)->Ok_0[m] by {
                assert(deck@[m].card_view() == row_card(lv[m + 1]));
                assert(rows_cards(tail, tail.len() as int)[m] == row_card(tail[m]));
                assert(tail[m] == lv[m + 1]);
            }
        }
        Ok(deck)
    }
}

} // verus!
