//! Line-oriented parsing of the item catalog and of the inventory directive
//! stream.
//!
//! A directive line is split on ASCII whitespace into tokens and classified
//! by its first token: "#" starts a new inventory, "-" stores a stack, "//"
//! is a comment, anything else (a blank line included) is invalid. Invalid
//! and comment lines carry the tokens rejoined with single spaces.

use crate::items::{Item, ItemView};
use crate::text::{join_spec, join_tokens, join_tokens_from};
use vstd::prelude::*;
use vstd::string::{StrSliceExecFns, StringExecFns};

verus! {

/// ASCII whitespace: what separates tokens in the two flat-file formats.
pub open spec fn is_space(c: char) -> bool {
    c == ' ' || c == '\t' || c == '\r' || c == '\n'
}

/// The whitespace-separated tokens of a line, in order. A character extends
/// the token before it exactly when the previous character was no separator.
pub open spec fn tokens_of(s: Seq<char>) -> Seq<Seq<char>>
    decreases s.len(),
{
    if s.len() == 0 {
        Seq::empty()
    } else {
        let c = s.last();
        let r = tokens_of(s.drop_last());
        if is_space(c) {
            r
        } else if s.len() >= 2 && !is_space(s[s.len() - 2]) {
            r.update(r.len() - 1, r.last().push(c))
        } else {
            r.push(seq![c])
        }
    }
}

/// Whether the character is a decimal digit.
pub open spec fn is_digit(c: char) -> bool {
    48 <= c as int && c as int <= 57
}

/// The numeric value of one decimal digit.
pub open spec fn digit_val(c: char) -> nat {
    (c as int - 48) as nat
}

/// The value of a sequence of decimal digits, most significant first.
pub open spec fn digits_val(s: Seq<char>) -> nat
    decreases s.len(),
{
    if s.len() == 0 {
        0
    } else {
        digits_val(s.drop_last()) * 10 + digit_val(s.last())
    }
}

/// The digits of an unsigned-number token: an optional leading plus sign is
/// stripped.
pub open spec fn number_body(s: Seq<char>) -> Seq<char> {
    if s.len() > 0 && s[0] == '+' {
        s.drop_first()
    } else {
        s
    }
}

/// Whether a token has the shape of an unsigned decimal number of any size:
/// at least one digit after the optional plus sign, and nothing else.
pub open spec fn is_number_token(s: Seq<char>) -> bool {
    &&& number_body(s).len() > 0
    &&& forall|k: int| 0 <= k < number_body(s).len() ==> is_digit(#[trigger] number_body(s)[k])
}

/// The numeric value of a number token.
pub open spec fn token_val(s: Seq<char>) -> nat {
    digits_val(number_body(s))
}

/// Whether a token parses as a 64-bit unsigned integer.
pub open spec fn is_u64_token(s: Seq<char>) -> bool {
    is_number_token(s) && token_val(s) <= u64::MAX
}

/// Whether a token parses as a machine-word-sized unsigned integer.
pub open spec fn is_usize_token(s: Seq<char>) -> bool {
    is_number_token(s) && token_val(s) <= usize::MAX
}

/// The value of a digit sequence never shrinks when digits are appended.
proof fn lemma_digits_val_prefix(s: Seq<char>, m: int)
    requires
        0 <= m <= s.len(),
    ensures
        digits_val(s.take(m)) <= digits_val(s),
    decreases s.len(),
{
    if m < s.len() {
        lemma_digits_val_prefix(s.drop_last(), m);
        assert(s.drop_last().take(m) =~= s.take(m));
    } else {
        assert(s.take(m) =~= s);
    }
}

/// One parsed line of the inventory directive stream.
#[derive(Clone, Debug, PartialEq)]
pub enum ParsedLine {
    ItemStackLine { id: u64, quantity: usize },
    InventoryLine { max_size: usize },
    CommentLine { raw_line: String },
    InvalidLine { raw_line: String },
}

/// The mathematical content of a `ParsedLine`.
#[verifier::ext_equal]
pub enum LineView {
    ItemStackLine { id: u64, quantity: usize },
    InventoryLine { max_size: usize },
    CommentLine { raw: Seq<char> },
    InvalidLine { raw: Seq<char> },
}

impl View for ParsedLine {
    type V = LineView;

    open spec fn view(&self) -> LineView {
        match self {
            ParsedLine::ItemStackLine { id, quantity } => LineView::ItemStackLine {
                id: *id,
                quantity: *quantity,
            },
            ParsedLine::InventoryLine { max_size } => LineView::InventoryLine {
                max_size: *max_size,
            },
            ParsedLine::CommentLine { raw_line } => LineView::CommentLine { raw: raw_line@ },
            ParsedLine::InvalidLine { raw_line } => LineView::InvalidLine { raw: raw_line@ },
        }
    }
}

impl DeepView for ParsedLine {
    type V = LineView;

    open spec fn deep_view(&self) -> LineView {
        self.view()
    }
}

/// What one directive line parses to.
pub open spec fn parse_line_spec(s: Seq<char>) -> LineView {
    let ts = tokens_of(s);
    if ts.len() == 0 {
        LineView::InvalidLine { raw: Seq::empty() }
    } else if ts[0] == "#"@ {
        if ts.len() >= 2 && is_usize_token(ts[1]) {
            LineView::InventoryLine { max_size: token_val(ts[1]) as usize }
        } else {
            LineView::InvalidLine { raw: join_spec(ts) }
        }
    } else if ts[0] == "-"@ {
        if ts.len() >= 3 && is_u64_token(ts[1]) && is_usize_token(ts[2]) {
            LineView::ItemStackLine {
                id: token_val(ts[1]) as u64,
                quantity: token_val(ts[2]) as usize,
            }
        } else {
            LineView::InvalidLine { raw: join_spec(ts) }
        }
    } else if ts[0] == "//"@ {
        LineView::CommentLine { raw: join_spec(ts) }
    } else {
        LineView::InvalidLine { raw: join_spec(ts) }
    }
}

/// What one catalog line contributes: the first token read as the numeric
/// id, the remaining tokens rejoined with single spaces as the name; a line
/// without a valid id token contributes nothing.
pub open spec fn item_of_line(s: Seq<char>) -> Option<ItemView> {
    let ts = tokens_of(s);
    if ts.len() >= 1 && is_u64_token(ts[0]) {
        Some(ItemView { id: token_val(ts[0]) as u64, name: join_spec(ts.skip(1)) })
    } else {
        None
    }
}

/// The items of a catalog, in input line order.
pub open spec fn items_of_lines(lines: Seq<Seq<char>>) -> Seq<ItemView>
    decreases lines.len(),
{
    if lines.len() == 0 {
        Seq::empty()
    } else {
        let front = items_of_lines(lines.drop_last());
        match item_of_line(lines.last()) {
            Some(iv) => front.push(iv),
            None => front,
        }
    }
}

fn is_space_char(c: char) -> (r: bool)
    ensures
        r == is_space(c),
{
    c == ' ' || c == '\t' || c == '\r' || c == '\n'
}

/// Splits a line on ASCII whitespace into its tokens, in order.
pub fn tokenize(line: &str) -> (r: Vec<String>)
    ensures
        r.deep_view() == tokens_of(line@),
{
    let n = line.unicode_len();
    let mut toks: Vec<String> = Vec::new();
    let mut prev_nonspace = false;
    let mut i: usize = 0;
    proof {
        assert(toks.deep_view() =~= tokens_of(line@.take(0)));
    }
    while i < n
        invariant
            i <= n,
            n == line@.len(),
            toks.deep_view() == tokens_of(line@.take(i as int)),
            prev_nonspace == (i > 0 && !is_space(line@[i - 1])),
            prev_nonspace ==> toks@.len() > 0,
        decreases n - i,
    {
        let c = line.get_char(i);
        proof {
            assert(line@.take(i + 1).drop_last() =~= line@.take(i as int));
            assert(line@.take(i + 1).last() == line@[i as int]);
        }
        if is_space_char(c) {
            prev_nonspace = false;
        } else {
            let cs = line.substring_char(i, i + 1);
            proof {
                assert(cs@ =~= seq![line@[i as int]]);
            }
            if prev_nonspace {
                let mut last = toks.pop().unwrap();
                last.append(cs);
                toks.push(last);
                proof {
                    assert(last@ =~= tokens_of(line@.take(i as int)).last().push(c));
                    assert(toks.deep_view() =~= tokens_of(line@.take(i + 1)));
                }
            } else {
                toks.push(String::from_str(cs));
                proof {
                    assert(toks.deep_view() =~= tokens_of(line@.take(i + 1)));
                }
            }
            prev_nonspace = true;
        }
        i = i + 1;
    }
    proof {
        assert(line@.take(n as int) =~= line@);
    }
    toks
}

/// Parses a token as an unsigned 64-bit decimal number: an optional leading
/// plus sign, then one or more digits, with a value that fits.
pub fn parse_u64_token(tok: &str) -> (r: Option<u64>)
    ensures
        match r {
            Some(v) => is_u64_token(tok@) && v as nat == token_val(tok@),
            None => !is_u64_token(tok@),
        },
{
    let n = tok.unicode_len();
    if n == 0 {
        return None;
    }
    let start: usize = if tok.get_char(0) == '+' {
        1
    } else {
        0
    };
    if start == n {
        return None;
    }
    let ghost body = number_body(tok@);
    proof {
        if start == 1 {
            assert(body =~= tok@.skip(1));
        } else {
            assert(body =~= tok@);
        }
    }
    let mut acc: u64 = 0;
    let mut i: usize = start;
    proof {
        assert(body.take(0) =~= Seq::<char>::empty());
    }
    while i < n
        invariant
            start <= i <= n,
            start <= 1,
            n == tok@.len(),
            body == number_body(tok@),
            body.len() == n - start,
            forall|k: int| 0 <= k < i - start ==> body[k] == tok@[k + start],
            forall|k: int| 0 <= k < i - start ==> is_digit(#[trigger] body[k]),
            acc as nat == digits_val(body.take(i - start)),
        decreases n - i,
    {
        let c = tok.get_char(i);
        proof {
            assert(body[i - start] == tok@[i as int]);
        }
        let cv: u32 = c as u32;
        if cv < 48 || cv > 57 {
            return None;
        }
        let d: u64 = ((cv - 48) as u8) as u64;
        proof {
            assert(body.take(i - start + 1).drop_last() =~= body.take(i - start));
            assert(body.take(i - start + 1).last() == body[i - start]);
        }
        if acc > (u64::MAX - d) / 10 {
            proof {
                assert(acc * 10 + d > u64::MAX) by (nonlinear_arith)
                    requires
                        acc > (u64::MAX - d) / 10,
                        d <= 9,
                ;
                assert(digits_val(body.take(i - start + 1)) > u64::MAX);
                if is_number_token(tok@) {
                    lemma_digits_val_prefix(body, i - start + 1);
                }
            }
            return None;
        }
        proof {
            assert(acc * 10 + d <= u64::MAX) by (nonlinear_arith)
                requires
                    acc <= (u64::MAX - d) / 10,
                    d <= 9,
            ;
        }
        acc = acc * 10 + d;
        i = i + 1;
    }
    proof {
        assert(body.take(n - start) =~= body);
    }
    Some(acc)
}

/// Parses a token as an unsigned machine-word-sized decimal number.
pub fn parse_usize_token(tok: &str) -> (r: Option<usize>)
    ensures
        match r {
            Some(v) => is_usize_token(tok@) && v as nat == token_val(tok@),
            None => !is_usize_token(tok@),
        },
{
    match parse_u64_token(tok) {
        Some(v) => {
            if v <= usize::MAX as u64 {
                Some(v as usize)
            } else {
                None
            }
        },
        None => None,
    }
}

/// Reads flat text files of the two formats this crate understands, one
/// already split into lines.
pub struct Parser;

impl Parser {
    /// Classifies one line of the directive stream.
    pub fn parse_line(line: &str) -> (r: ParsedLine)
        ensures
            r@ == parse_line_spec(line@),
    {
        let tokens = tokenize(line);
        if tokens.len() == 0 {
            return ParsedLine::InvalidLine { raw_line: String::new() };
        }
        let hash = String::from_str("#");
        let dash = String::from_str("-");
        let slashes = String::from_str("//");
        if tokens[0] == hash {
            if tokens.len() >= 2 {
                if let Some(max_size) = parse_usize_token(tokens[1].as_str()) {
                    return ParsedLine::InventoryLine { max_size };
                }
            }
            ParsedLine::InvalidLine { raw_line: join_tokens(&tokens) }
        } else if tokens[0] == dash {
            if tokens.len() >= 3 {
                if let Some(id) = parse_u64_token(tokens[1].as_str()) {
                    if let Some(quantity) = parse_usize_token(tokens[2].as_str()) {
                        return ParsedLine::ItemStackLine { id, quantity };
                    }
                }
            }
            ParsedLine::InvalidLine { raw_line: join_tokens(&tokens) }
        } else if tokens[0] == slashes {
            ParsedLine::CommentLine { raw_line: join_tokens(&tokens) }
        } else {
            ParsedLine::InvalidLine { raw_line: join_tokens(&tokens) }
        }
    }

    /// Reads the item catalog: one item per line, the first token the
    /// numeric id, the rest of the line the name. Lines without a valid id
    /// token are skipped. Input line order is preserved.
    pub fn read_items(lines: &Vec<String>) -> (r: Vec<Item>)
        ensures
            r.deep_view() == items_of_lines(lines.deep_view()),
    {
        let mut items: Vec<Item> = Vec::new();
        let mut i: usize = 0;
        proof {
            assert(items.deep_view() =~= items_of_lines(lines.deep_view().take(0)));
        }
        while i < lines.len()
            invariant
                i <= lines@.len(),
                items.deep_view() == items_of_lines(lines.deep_view().take(i as int)),
            decreases lines@.len() - i,
        {
            proof {
                assert(lines.deep_view().take(i + 1).drop_last() =~= lines.deep_view().take(
                    i as int,
                ));
                assert(lines.deep_view().take(i + 1).last() == lines@[i as int]@);
            }
            let tokens = tokenize(lines[i].as_str());
            if tokens.len() >= 1 {
                if let Some(id) = parse_u64_token(tokens[0].as_str()) {
                    let name = join_tokens_from(&tokens, 1);
                    items.push(Item::new(id, name));
                    proof {
                        assert(items.deep_view() =~= items_of_lines(lines.deep_view().take(i + 1)));
                    }
                }
            }
            proof {
                assert(items.deep_view() =~= items_of_lines(lines.deep_view().take(i + 1)));
            }
            i = i + 1;
        }
        proof {
            assert(lines.deep_view().take(lines@.len() as int) =~= lines.deep_view());
        }
        items
    }

    /// Reads the directive stream: classifies every line, blank ones
    /// included, preserving input line order.
    pub fn read_inventory_lines(lines: &Vec<String>) -> (r: Vec<ParsedLine>)
        ensures
            r@.len() == lines@.len(),
            forall|i: int| 0 <= i < lines@.len() ==> r@[i]@ == parse_line_spec(lines@[i]@),
    {
        let mut parsed: Vec<ParsedLine> = Vec::new();
        let mut i: usize = 0;
        while i < lines.len()
            invariant
                i <= lines@.len(),
                parsed@.len() == i,
                forall|j: int| 0 <= j < i ==> parsed@[j]@ == parse_line_spec(lines@[j]@),
            decreases lines@.len() - i,
        {
            parsed.push(Self::parse_line(lines[i].as_str()));
            i = i + 1;
        }
        parsed
    }
}

} // verus!
