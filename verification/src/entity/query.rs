//! The query: a sequence of tokens, and the cutting of a query string into
//! tokens.
//!
//! The tokens are all there is to a query. What a clause says is read off
//! the token sequence each time it is asked for.

use vstd::prelude::*;
use crate::text::case::{
    lemma_uppercase_idempotent, lowercase, to_lowercase, to_uppercase, uppercase,
};
use crate::text::{push_char, text_eq, Row, Text};

verus! {

/// The predicates of a `WHERE` clause, each a column, an operator and a
/// value, in the order in which they were written.
pub type WhereCondition = Vec<Vec<String>>;

/// The column to sort by and the direction, `ASC` or `DESC`.
#[derive(Debug, PartialEq)]
pub struct Order {
    pub column: String,
    pub condition: String,
}

/// What an `Order` says: its column and its direction, as texts.
pub struct OrderView {
    pub column: Text,
    pub condition: Text,
}

impl View for Order {
    type V = OrderView;

    open spec fn view(&self) -> OrderView {
        OrderView { column: self.column@, condition: self.condition@ }
    }
}

/// Reads the path of the file that a query names.
pub trait QueryFrom {
    fn get_file_path(&self) -> Result<String, String>;
}

/// Reads the columns that a query selects.
pub trait QuerySelect {
    fn get_select(&self) -> Vec<String>;
}

/// Reads the row limit of a query.
pub trait QueryLimit {
    fn get_limit(&self) -> u32;
}

/// Reads the order of a query.
pub trait QueryOrder {
    fn get_order(&self) -> Order;
}

/// Reads the predicates of a query.
pub trait QueryWhereCondition {
    fn get_where(&self) -> WhereCondition;
}

/// Whether `word` is a reserved word, in small letters, in capitals or mixed.
pub open spec fn is_reserved(word: Text) -> bool {
    let w = lowercase(word);
    ||| w == "select"@
    ||| w == "from"@
    ||| w == "limit"@
    ||| w == "order"@
    ||| w == "by"@
    ||| w == "asc"@
    ||| w == "desc"@
    ||| w == "where"@
    ||| w == "and"@
}

/// The token that `word` becomes: a reserved word in capitals, any other
/// word itself.
pub open spec fn normalized(word: Text) -> Text {
    if is_reserved(word) {
        uppercase(word)
    } else {
        word
    }
}

/// The token that stands for a comma between double quotes.
pub open spec fn separator() -> Text {
    ", "@
}

/// `tokens` with the token of `word` behind them, where `word` is not empty.
pub open spec fn flushed(tokens: Row, word: Text) -> Row {
    if word.len() == 0 {
        tokens
    } else {
        tokens.push(normalized(word))
    }
}

/// Where the cutting of a query string stands: the tokens closed so far, the
/// word that is being read, and whether a double quote is open.
pub struct Scan {
    pub tokens: Row,
    pub word: Text,
    pub in_quote: bool,
}

/// The step that one character makes.
///
/// A double quote opens or closes a quoted span and is no part of a word. A
/// comma in a quoted span closes the word and leaves the separator token; a
/// comma outside is passed over. A space outside a quoted span closes the
/// word. Every other character joins the word.
pub open spec fn scan_char(scan: Scan, c: char) -> Scan {
    if c == '"' {
        Scan { tokens: scan.tokens, word: scan.word, in_quote: !scan.in_quote }
    } else if c == ',' && scan.in_quote {
        Scan {
            tokens: flushed(scan.tokens, scan.word).push(separator()),
            word: Seq::empty(),
            in_quote: scan.in_quote,
        }
    } else if c == ' ' && !scan.in_quote {
        Scan {
            tokens: flushed(scan.tokens, scan.word),
            word: Seq::empty(),
            in_quote: scan.in_quote,
        }
    } else if c == ',' {
        scan
    } else {
        Scan { tokens: scan.tokens, word: scan.word.push(c), in_quote: scan.in_quote }
    }
}

/// Where the cutting stands after all of `input`.
pub open spec fn scanned(input: Text) -> Scan
    decreases input.len(),
{
    if input.len() == 0 {
        Scan { tokens: Seq::empty(), word: Seq::empty(), in_quote: false }
    } else {
        scan_char(scanned(input.drop_last()), input.last())
    }
}

/// The tokens of the query string `input`.
pub open spec fn tokens_of(input: Text) -> Row {
    let scan = scanned(input);
    flushed(scan.tokens, scan.word)
}

/// Whether none of `tokens` is empty.
pub open spec fn none_empty(tokens: Row) -> bool {
    forall|i: int| 0 <= i < tokens.len() ==> (#[trigger] tokens[i]).len() > 0
}

/// Closing a word leaves no empty token.
pub proof fn lemma_flushed_none_empty(tokens: Row, word: Text)
    requires
        none_empty(tokens),
    ensures
        none_empty(flushed(tokens, word)),
{
    assert(normalized(word).len() == word.len());
}

/// No step of the cutting leaves an empty token.
pub proof fn lemma_scanned_none_empty(input: Text)
    ensures
        none_empty(scanned(input).tokens),
    decreases input.len(),
{
    if input.len() > 0 {
        let before = scanned(input.drop_last());
        lemma_scanned_none_empty(input.drop_last());
        lemma_flushed_none_empty(before.tokens, before.word);
        reveal_strlit(", ");
    }
}

/// No token of a query string is empty.
pub proof fn lemma_tokens_none_empty(input: Text)
    ensures
        none_empty(tokens_of(input)),
{
    lemma_scanned_none_empty(input);
    lemma_flushed_none_empty(scanned(input).tokens, scanned(input).word);
}

/// Whether `text` holds neither a double quote nor a comma.
pub open spec fn is_plain(text: Text) -> bool {
    forall|i: int| 0 <= i < text.len() ==> #[trigger] text[i] != '"' && text[i] != ','
}

/// Whether each of `tokens` is the separator token or holds neither a double
/// quote nor a comma.
pub open spec fn all_plain(tokens: Row) -> bool {
    forall|i: int|
        0 <= i < tokens.len() ==> (#[trigger] tokens[i]) == separator() || is_plain(tokens[i])
}

/// The token of a word without double quotes and commas has none.
pub proof fn lemma_normalized_plain(word: Text)
    requires
        is_plain(word),
    ensures
        is_plain(normalized(word)),
{
    assert forall|i: int| 0 <= i < word.len() implies #[trigger] uppercase(word)[i] != '"'
        && uppercase(word)[i] != ',' by {
        assert(word[i] != '"' && word[i] != ',');
    }
}

/// At every step of the cutting neither the word nor a token other than the
/// separator holds a double quote or a comma.
pub proof fn lemma_scanned_plain(input: Text)
    ensures
        all_plain(scanned(input).tokens),
        is_plain(scanned(input).word),
    decreases input.len(),
{
    if input.len() > 0 {
        let before = scanned(input.drop_last());
        lemma_scanned_plain(input.drop_last());
        lemma_normalized_plain(before.word);
    }
}

/// No double quote is left in a token, and no comma but in the separator
/// token.
pub proof fn lemma_tokens_plain(input: Text)
    ensures
        all_plain(tokens_of(input)),
{
    lemma_scanned_plain(input);
    lemma_normalized_plain(scanned(input).word);
}

/// Whether each of `tokens` is the token of itself: a reserved word among
/// them is in capitals.
pub open spec fn all_normalized(tokens: Row) -> bool {
    forall|i: int| 0 <= i < tokens.len() ==> normalized(#[trigger] tokens[i]) == tokens[i]
}

/// The token of a word is the token of itself.
pub proof fn lemma_normalized_idempotent(word: Text)
    ensures
        normalized(normalized(word)) == normalized(word),
{
    lemma_uppercase_idempotent(word);
}

/// The separator token is the token of itself.
pub proof fn lemma_separator_normalized()
    ensures
        normalized(separator()) == separator(),
{
    reveal_strlit(", ");
    assert(uppercase(separator()) =~= separator());
}

/// At every step of the cutting each token is the token of itself.
pub proof fn lemma_scanned_normalized(input: Text)
    ensures
        all_normalized(scanned(input).tokens),
    decreases input.len(),
{
    if input.len() > 0 {
        let before = scanned(input.drop_last());
        lemma_scanned_normalized(input.drop_last());
        lemma_normalized_idempotent(before.word);
        lemma_separator_normalized();
    }
}

/// Each token of a query string is the token of itself: the reserved words
/// among the tokens are in capitals.
pub proof fn lemma_tokens_normalized(input: Text)
    ensures
        all_normalized(tokens_of(input)),
{
    lemma_scanned_normalized(input);
    lemma_normalized_idempotent(scanned(input).word);
}

/// Whether `tokens` begin with `SELECT`.
pub open spec fn starts_with_select(tokens: Row) -> bool {
    tokens.len() > 0 && tokens[0] == "SELECT"@
}

/// Whether `word` is a reserved word, in small letters, in capitals or mixed.
pub fn is_reserved_word(word: &str) -> (r: bool)
    ensures
        r == is_reserved(word@),
{
    let lowered = to_lowercase(word);
    let w = lowered.as_str();
    text_eq(w, "select") || text_eq(w, "from") || text_eq(w, "limit") || text_eq(w, "order")
        || text_eq(w, "by") || text_eq(w, "asc") || text_eq(w, "desc") || text_eq(w, "where")
        || text_eq(w, "and")
}

/// Closes the word `token`: where it is not empty, its token goes behind
/// `clauses`, and `token` is emptied.
pub fn append_token(clauses: &mut Vec<String>, token: &mut String)
    ensures
        final(clauses).deep_view() == flushed(old(clauses).deep_view(), old(token)@),
        final(token)@ == Seq::<char>::empty(),
{
    if !token.as_str().is_empty() {
        let normarized = if is_reserved_word(token.as_str()) {
            to_uppercase(token.as_str())
        } else {
            token.clone()
        };
        let ghost before = clauses.deep_view();
        clauses.push(normarized);
        assert(clauses.deep_view() =~= before.push(normalized(old(token)@)));
        *token = String::new();
    } else {
        assert(token@ =~= Seq::<char>::empty());
    }
}

/// Cuts the query string `input` into tokens.
pub fn parse_clauses(input: &str) -> (clauses: Vec<String>)
    ensures
        clauses.deep_view() == tokens_of(input@),
{
    let mut clauses: Vec<String> = Vec::new();
    let mut current_token = String::new();
    let mut in_quote = false;
    assert(clauses.deep_view() =~= Seq::<Text>::empty());
    for c in it: input.chars()
        invariant
            it.seq() == input@,
            scanned(input@.take(it.index())) == (Scan {
                tokens: clauses.deep_view(),
                word: current_token@,
                in_quote,
            }),
    {
        proof {
            let next = input@.take(it.index() + 1);
            assert(next.drop_last() =~= input@.take(it.index()));
            assert(next.last() == c);
        }
        if c == '"' {
            in_quote = !in_quote;
        } else if c == ',' && in_quote {
            append_token(&mut clauses, &mut current_token);
            let ghost before = clauses.deep_view();
            clauses.push(", ".to_owned());
            assert(clauses.deep_view() =~= before.push(separator()));
        } else if c == ' ' && !in_quote {
            append_token(&mut clauses, &mut current_token);
        } else if c != ',' {
            push_char(&mut current_token, c);
        }
    }
    assert(input@.take(input@.len() as int) =~= input@);
    append_token(&mut clauses, &mut current_token);
    clauses
}

/// A query: its tokens, in order.
#[derive(Debug)]
pub struct Query {
    pub clauses: Vec<String>,
}

impl View for Query {
    type V = Row;

    open spec fn view(&self) -> Row {
        self.clauses.deep_view()
    }
}

impl Query {
    /// The query that the string `input` writes.
    pub fn new(input: &str) -> (query: Self)
        ensures
            query@ == tokens_of(input@),
    {
        let clauses = parse_clauses(input);
        Query { clauses }
    }

    /// Accepts a query that begins with `SELECT`, and no other.
    pub fn validate(&self) -> (r: Result<(), String>)
        ensures
            r is Ok <==> starts_with_select(self@),
            r is Err ==> r->Err_0@ == "syntax error: query must start with SELECT"@,
    {
        if self.clauses.len() == 0 || !text_eq(self.clauses[0].as_str(), "SELECT") {
            return Err("syntax error: query must start with SELECT".to_owned());
        }
        Ok(())
    }
}

} // verus!
