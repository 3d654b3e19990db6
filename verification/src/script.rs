//! Polyglot script runtime: one tree-walking interpreter running
//! JavaScript, TypeScript (after type stripping) and Python over a shared
//! token stream, AST and evaluator, with uniform host bindings (`print` and
//! `console.log` both append a line to the output).
//!
//! The subset: int/string/bool/nil values, arithmetic, comparison and
//! logical operators, string `+`, variables, `if/else`, `while`, C-style
//! `for` (JS/TS) and `for .. in range(..)` (Python), recursive functions and
//! the built-ins `print`, `console.log`, `str`, `len`, `abs`.

use vstd::prelude::*;
use std::rc::Rc;
use crate::text::{decimal, owned, push_signed, push_str, signed_decimal, str_eq, string_push, texts};

verus! {

/// A script language.
#[derive(Clone, Copy, PartialEq, Eq, Debug, Structural)]
pub enum Lang {
    Js,
    Ts,
    Python,
}

impl Lang {
    /// The language's display name.
    pub fn name(self) -> (s: &'static str)
        ensures
            self == Lang::Js ==> s == "JavaScript",
            self == Lang::Ts ==> s == "TypeScript",
            self == Lang::Python ==> s == "Python",
    {
        match self {
            Lang::Js => "JavaScript",
            Lang::Ts => "TypeScript",
            Lang::Python => "Python",
        }
    }
}

// ----------------------------------------------------------------------------
// Values

/// A runtime value.
pub enum Value {
    Int(i64),
    Str(String),
    Bool(bool),
    Nil,
}

/// A value as the semantics sees it: a string by its text.
pub enum Val {
    Int(i64),
    Str(Seq<char>),
    Bool(bool),
    Nil,
}

impl View for Value {
    type V = Val;

    open spec fn view(&self) -> Val {
        match self {
            Value::Int(n) => Val::Int(*n),
            Value::Str(s) => Val::Str(s@),
            Value::Bool(b) => Val::Bool(*b),
            Value::Nil => Val::Nil,
        }
    }
}

/// A value's text: decimal for numbers, the string itself, `true`/`false`,
/// `nil`.
pub open spec fn display_v(v: Val) -> Seq<char> {
    match v {
        Val::Int(n) => signed_decimal(n as int),
        Val::Str(s) => s,
        Val::Bool(b) => if b { "true"@ } else { "false"@ },
        Val::Nil => "nil"@,
    }
}

/// Truthiness: nonzero numbers, nonempty strings, `true`.
pub open spec fn truthy_v(v: Val) -> bool {
    match v {
        Val::Int(n) => n != 0,
        Val::Str(s) => s.len() > 0,
        Val::Bool(b) => b,
        Val::Nil => false,
    }
}

/// The numeric reading of a value: numbers themselves, booleans as 0/1,
/// anything else 0.
pub open spec fn int_v(v: Val) -> i64 {
    match v {
        Val::Int(n) => n,
        Val::Bool(b) => if b { 1 } else { 0 },
        _ => 0,
    }
}

/// `==` of the scripts: strings by text, nil with nil, anything else by
/// numeric reading.
pub open spec fn eq_v(a: Val, b: Val) -> bool {
    match (a, b) {
        (Val::Str(x), Val::Str(y)) => x == y,
        (Val::Nil, Val::Nil) => true,
        _ => int_v(a) == int_v(b),
    }
}

/// A value's text (see [`display_v`]).
pub open spec fn display_of(v: Value) -> Seq<char> {
    display_v(v@)
}

/// A value's truthiness (see [`truthy_v`]).
pub open spec fn truthy_of(v: Value) -> bool {
    truthy_v(v@)
}

/// A value's numeric reading (see [`int_v`]).
pub open spec fn int_of(v: Value) -> i64 {
    int_v(v@)
}

impl Value {
    /// A copy of the value.
    pub fn copy(&self) -> (r: Value)
        ensures
            r == *self,
    {
        match self {
            Value::Int(n) => Value::Int(*n),
            Value::Str(s) => Value::Str(s.clone()),
            Value::Bool(b) => Value::Bool(*b),
            Value::Nil => Value::Nil,
        }
    }

    /// The value's text (see [`display_of`]).
    pub fn display(&self) -> (s: String)
        ensures
            s@ == display_of(*self),
    {
        match self {
            Value::Int(n) => {
                let mut s = String::new();
                push_signed(&mut s, *n);
                assert(s@ =~= display_of(*self));
                s
            },
            Value::Str(s) => s.clone(),
            Value::Bool(b) => if *b { owned("true") } else { owned("false") },
            Value::Nil => owned("nil"),
        }
    }

    /// Truthiness (see [`truthy_of`]).
    pub fn truthy(&self) -> (b: bool)
        ensures
            b == truthy_of(*self),
    {
        match self {
            Value::Int(n) => *n != 0,
            Value::Str(s) => s.unicode_len() > 0,
            Value::Bool(b) => *b,
            Value::Nil => false,
        }
    }

    /// The numeric reading (see [`int_of`]).
    pub fn as_int(&self) -> (n: i64)
        ensures
            n == int_of(*self),
    {
        match self {
            Value::Int(n) => *n,
            Value::Bool(b) => if *b { 1 } else { 0 },
            _ => 0,
        }
    }
}

/// Script equality of two values (see [`eq_v`]).
pub open spec fn values_eq_spec(a: Value, b: Value) -> bool {
    eq_v(a@, b@)
}

/// Script equality of two values.
pub fn values_eq(a: &Value, b: &Value) -> (r: bool)
    ensures
        r == values_eq_spec(*a, *b),
{
    match (a, b) {
        (Value::Str(x), Value::Str(y)) => crate::text::string_eq(x, y),
        (Value::Nil, Value::Nil) => true,
        _ => a.as_int() == b.as_int(),
    }
}

// ----------------------------------------------------------------------------
// Tokens

/// Punctuation, operators and layout tokens.
#[derive(Clone, Copy, PartialEq, Eq, Debug, Structural)]
pub enum Sym {
    Plus,
    Minus,
    Star,
    Slash,
    Percent,
    EqEq,
    Ne,
    Lt,
    Le,
    Gt,
    Ge,
    AndAnd,
    OrOr,
    Bang,
    Assign,
    LParen,
    RParen,
    LBrace,
    RBrace,
    Comma,
    Semi,
    Colon,
    Dot,
    Newline,
    Indent,
    Dedent,
}

/// A token (shared by the JavaScript and Python front ends).
pub enum Tok {
    Int(i64),
    Str(String),
    Ident(String),
    Bool(bool),
    Nil,
    P(Sym),
}

/// A token as a mathematical value.
pub enum STok {
    Int(i64),
    Str(Seq<char>),
    Ident(Seq<char>),
    Bool(bool),
    Nil,
    P(Sym),
}

/// The mathematical value of a token.
pub open spec fn stok(t: Tok) -> STok {
    match t {
        Tok::Int(n) => STok::Int(n),
        Tok::Str(s) => STok::Str(s@),
        Tok::Ident(s) => STok::Ident(s@),
        Tok::Bool(b) => STok::Bool(b),
        Tok::Nil => STok::Nil,
        Tok::P(p) => STok::P(p),
    }
}

/// The mathematical values of a token list.
pub open spec fn stoks(ts: Seq<Tok>) -> Seq<STok> {
    ts.map_values(|t: Tok| stok(t))
}

impl Tok {
    /// A copy of the token.
    pub fn copy(&self) -> (r: Tok)
        ensures
            r == *self,
    {
        match self {
            Tok::Int(n) => Tok::Int(*n),
            Tok::Str(s) => Tok::Str(s.clone()),
            Tok::Ident(s) => Tok::Ident(s.clone()),
            Tok::Bool(b) => Tok::Bool(*b),
            Tok::Nil => Tok::Nil,
            Tok::P(p) => Tok::P(*p),
        }
    }
}

// ----------------------------------------------------------------------------
// Byte classes (ASCII)

pub open spec fn is_space(c: u8) -> bool {
    c == 32 || c == 9 || c == 10 || c == 12 || c == 13
}

pub open spec fn is_digit(c: u8) -> bool {
    48 <= c <= 57
}

pub open spec fn is_alpha(c: u8) -> bool {
    (65 <= c <= 90) || (97 <= c <= 122)
}

pub open spec fn is_word(c: u8) -> bool {
    c == 95 || is_alpha(c) || is_digit(c)
}

fn space(c: u8) -> (r: bool)
    ensures
        r == is_space(c),
{
    c == 32 || c == 9 || c == 10 || c == 12 || c == 13
}

fn digit(c: u8) -> (r: bool)
    ensures
        r == is_digit(c),
{
    48 <= c && c <= 57
}

fn word(c: u8) -> (r: bool)
    ensures
        r == is_word(c),
{
    c == 95 || (65 <= c && c <= 90) || (97 <= c && c <= 122) || (48 <= c && c <= 57)
}

// ----------------------------------------------------------------------------
// Lexer pieces

/// The character an escape `\c` stands for.
pub open spec fn escape_char(c: u8) -> char {
    if c == 110 { '\n' } else if c == 116 { '\t' } else { c as char }
}

/// The body of a string literal from `i` up to the closing `q`: its
/// characters (bytes taken as characters, escapes resolved) and the index
/// after the closing quote; `None` when the quote is never closed.
pub open spec fn scan_str(b: Seq<u8>, q: u8, i: nat) -> Option<(Seq<char>, nat)>
    decreases b.len() - i,
{
    if i >= b.len() {
        None
    } else if b[i as int] == q {
        Some((Seq::empty(), i + 1))
    } else if b[i as int] == 92 && i + 1 < b.len() {
        match scan_str(b, q, i + 2) {
            Some((s, n)) => Some((seq![escape_char(b[i as int + 1])] + s, n)),
            None => None,
        }
    } else {
        match scan_str(b, q, i + 1) {
            Some((s, n)) => Some((seq![b[i as int] as char] + s, n)),
            None => None,
        }
    }
}

/// Lex a string literal whose opening quote is at `start`.
fn lex_string(b: &[u8], start: usize) -> (r: Result<(String, usize), String>)
    requires
        start < b@.len(),
    ensures
        match scan_str(b@, b@[start as int], (start + 1) as nat) {
            Some((s, n)) => r matches Ok((t, m)) && t@ == s && m == n,
            None => r matches Err(e) && e@ == "string tak ditutup"@,
        },
{
    let quote = b[start];
    let mut i = start + 1;
    let mut s = String::new();
    let ghost q0 = (start + 1) as nat;
    while i < b.len() && b[i] != quote
        invariant
            start < i <= b@.len(),
            quote == b@[start as int],
            scan_str(b@, quote, q0) == match scan_str(b@, quote, i as nat) {
                Some((t, n)) => Some((s@ + t, n)),
                None => None,
            },
        decreases b@.len() - i,
    {
        let ghost (s_old, i_old) = (s@, i as nat);
        let ch = if b[i] == 92 && i + 1 < b.len() {
            i = i + 1;
            let c = b[i];
            if c == 110 { '\n' } else if c == 116 { '\t' } else { c as char }
        } else {
            b[i] as char
        };
        string_push(&mut s, ch);
        i = i + 1;
        proof {
            assert(scan_str(b@, quote, i_old) == match scan_str(b@, quote, i as nat) {
                Some((t, n)) => Some((seq![ch] + t, n)),
                None => None,
            });
            match scan_str(b@, quote, i as nat) {
                Some((t, n)) => { assert(s_old + (seq![ch] + t) =~= s@ + t); },
                None => {},
            }
        }
    }
    if i >= b.len() {
        return Err(owned("string tak ditutup"));
    }
    assert(s@ + Seq::<char>::empty() =~= s@);
    Ok((s, i + 1))
}

/// End of the run of digit (or, with `word`, identifier) bytes at `i`.
pub open spec fn run_end(b: Seq<u8>, i: nat, word: bool) -> nat
    decreases b.len() - i,
{
    if i < b.len() && (if word { is_word(b[i as int]) } else { is_digit(b[i as int]) }) {
        run_end(b, i + 1, word)
    } else {
        i
    }
}

/// The value of the decimal digits `b[s..e]`.
pub open spec fn digits_val(b: Seq<u8>, s: int, e: int) -> int
    decreases e - s,
{
    if e <= s { 0 } else { digits_val(b, s, e - 1) * 10 + (b[e - 1] - 48) }
}

/// The bytes `b[s..e]` taken as characters.
pub open spec fn bytes_text(b: Seq<u8>, s: int, e: int) -> Seq<char> {
    b.subrange(s, e).map_values(|c: u8| c as char)
}

proof fn lemma_run_end(b: Seq<u8>, i: nat, word: bool)
    ensures
        i <= run_end(b, i, word) <= (if i <= b.len() { b.len() } else { i }),
        forall|k: int| i <= k < run_end(b, i, word) ==> (if word { is_word(#[trigger] b[k]) } else { is_digit(b[k]) }),
        run_end(b, i, word) < b.len() ==> !(if word { is_word(b[run_end(b, i, word) as int]) } else { is_digit(b[run_end(b, i, word) as int]) }),
    decreases b.len() - i,
{
    if i < b.len() && (if word { is_word(b[i as int]) } else { is_digit(b[i as int]) }) {
        lemma_run_end(b, i + 1, word);
    }
}

proof fn lemma_digits_mono(b: Seq<u8>, s: int, e1: int, e2: int)
    requires
        s <= e1 <= e2 <= b.len(),
        forall|k: int| s <= k < e2 ==> is_digit(#[trigger] b[k]),
    ensures
        0 <= digits_val(b, s, e1) <= digits_val(b, s, e2),
    decreases e2 - e1,
{
    lemma_digits_nonneg(b, s, e1);
    if e1 < e2 {
        lemma_digits_mono(b, s, e1, e2 - 1);
        lemma_digits_nonneg(b, s, e2 - 1);
    }
}

proof fn lemma_digits_nonneg(b: Seq<u8>, s: int, e: int)
    requires
        s <= e <= b.len(),
        forall|k: int| s <= k < e ==> is_digit(#[trigger] b[k]),
    ensures
        0 <= digits_val(b, s, e),
    decreases e - s,
{
    if s < e {
        lemma_digits_nonneg(b, s, e - 1);
    }
}

/// The decimal number starting at `start` fits in an `i64`.
fn number_fits(b: &[u8], start: usize) -> (ok: bool)
    requires
        start <= b@.len(),
    ensures
        ok == (digits_val(b@, start as int, run_end(b@, start as nat, false) as int) <= i64::MAX),
{
    proof { lemma_run_end(b@, start as nat, false); }
    let ghost e = run_end(b@, start as nat, false);
    let mut i = start;
    let mut n: i64 = 0;
    while i < b.len() && digit(b[i])
        invariant
            start <= i <= e,
            e == run_end(b@, start as nat, false),
            e <= b@.len(),
            forall|k: int| start <= k < e ==> is_digit(#[trigger] b@[k]),
            e < b@.len() ==> !is_digit(b@[e as int]),
            n == digits_val(b@, start as int, i as int),
            n >= 0,
        decreases b@.len() - i,
    {
        let d = (b[i] - 48) as i64;
        if n > (i64::MAX - d) / 10 {
            proof {
                assert(n * 10 + d > i64::MAX) by (nonlinear_arith)
                    requires n > (i64::MAX - d) / 10, 0 <= d <= 9;
                lemma_digits_mono(b@, start as int, i + 1, e as int);
            }
            return false;
        }
        assert(0 <= n * 10 + d <= i64::MAX) by (nonlinear_arith)
            requires 0 <= n <= (i64::MAX - d) / 10, 0 <= d <= 9;
        n = n * 10 + d;
        i = i + 1;
    }
    true
}

/// Lex the decimal number starting at `start`.
fn lex_number(b: &[u8], start: usize) -> (r: (i64, usize))
    requires
        start <= b@.len(),
        digits_val(b@, start as int, run_end(b@, start as nat, false) as int) <= i64::MAX,
    ensures
        r.1 == run_end(b@, start as nat, false),
        r.0 == digits_val(b@, start as int, r.1 as int),
{
    proof { lemma_run_end(b@, start as nat, false); }
    let ghost e = run_end(b@, start as nat, false);
    let mut i = start;
    let mut n: i64 = 0;
    while i < b.len() && digit(b[i])
        invariant
            start <= i <= e,
            e == run_end(b@, start as nat, false),
            e <= b@.len(),
            forall|k: int| start <= k < e ==> is_digit(#[trigger] b@[k]),
            e < b@.len() ==> !is_digit(b@[e as int]),
            digits_val(b@, start as int, e as int) <= i64::MAX,
            n == digits_val(b@, start as int, i as int),
        decreases b@.len() - i,
    {
        proof { lemma_digits_mono(b@, start as int, i + 1, e as int); }
        n = n * 10 + (b[i] - 48) as i64;
        i = i + 1;
    }
    (n, i)
}

/// Lex the identifier starting at `start`.
fn lex_ident(b: &[u8], start: usize) -> (r: (String, usize))
    requires
        start <= b@.len(),
    ensures
        r.1 == run_end(b@, start as nat, true),
        r.0@ == bytes_text(b@, start as int, r.1 as int),
{
    proof { lemma_run_end(b@, start as nat, true); }
    let ghost e = run_end(b@, start as nat, true);
    let mut i = start;
    let mut w = String::new();
    while i < b.len() && word(b[i])
        invariant
            start <= i <= e,
            e == run_end(b@, start as nat, true),
            e <= b@.len(),
            forall|k: int| start <= k < e ==> is_word(#[trigger] b@[k]),
            e < b@.len() ==> !is_word(b@[e as int]),
            w@ == bytes_text(b@, start as int, i as int),
        decreases b@.len() - i,
    {
        string_push(&mut w, b[i] as char);
        i = i + 1;
        assert(w@ =~= bytes_text(b@, start as int, i as int));
    }
    (w, i)
}

/// The token a word stands for: literals, the word operators, or a name.
pub open spec fn ident_stok(w: Seq<char>) -> STok {
    if w == "true"@ || w == "True"@ {
        STok::Bool(true)
    } else if w == "false"@ || w == "False"@ {
        STok::Bool(false)
    } else if w == "null"@ || w == "nil"@ || w == "None"@ {
        STok::Nil
    } else if w == "and"@ {
        STok::P(Sym::AndAnd)
    } else if w == "or"@ {
        STok::P(Sym::OrOr)
    } else if w == "not"@ {
        STok::P(Sym::Bang)
    } else {
        STok::Ident(w)
    }
}

/// The token for a word (see [`ident_stok`]).
fn ident_tok(w: String) -> (t: Tok)
    ensures
        stok(t) == ident_stok(w@),
{
    let ws = w.as_str();
    if str_eq(ws, "true") || str_eq(ws, "True") {
        Tok::Bool(true)
    } else if str_eq(ws, "false") || str_eq(ws, "False") {
        Tok::Bool(false)
    } else if str_eq(ws, "null") || str_eq(ws, "nil") || str_eq(ws, "None") {
        Tok::Nil
    } else if str_eq(ws, "and") {
        Tok::P(Sym::AndAnd)
    } else if str_eq(ws, "or") {
        Tok::P(Sym::OrOr)
    } else if str_eq(ws, "not") {
        Tok::P(Sym::Bang)
    } else {
        Tok::Ident(w)
    }
}

/// The operator or punctuation at `i` and the index after it (two-byte
/// operators first); `None` for any other byte.
pub open spec fn op_at(b: Seq<u8>, i: int) -> Option<(Sym, int)> {
    let two = |x: u8, y: u8| i + 1 < b.len() && b[i] == x && b[i + 1] == y;
    if two(61, 61) { Some((Sym::EqEq, i + 2)) }
    else if two(33, 61) { Some((Sym::Ne, i + 2)) }
    else if two(60, 61) { Some((Sym::Le, i + 2)) }
    else if two(62, 61) { Some((Sym::Ge, i + 2)) }
    else if two(38, 38) { Some((Sym::AndAnd, i + 2)) }
    else if two(124, 124) { Some((Sym::OrOr, i + 2)) }
    else {
        let c = b[i];
        let p = if c == 43 { Some(Sym::Plus) } else if c == 45 { Some(Sym::Minus) } else if c == 42 { Some(Sym::Star) }
            else if c == 47 { Some(Sym::Slash) } else if c == 37 { Some(Sym::Percent) } else if c == 60 { Some(Sym::Lt) }
            else if c == 62 { Some(Sym::Gt) } else if c == 33 { Some(Sym::Bang) } else if c == 61 { Some(Sym::Assign) }
            else if c == 40 { Some(Sym::LParen) } else if c == 41 { Some(Sym::RParen) } else if c == 123 { Some(Sym::LBrace) }
            else if c == 125 { Some(Sym::RBrace) } else if c == 44 { Some(Sym::Comma) } else if c == 59 { Some(Sym::Semi) }
            else if c == 58 { Some(Sym::Colon) } else if c == 46 { Some(Sym::Dot) } else { None };
        match p { Some(s) => Some((s, i + 1)), None => None }
    }
}

/// The error for an unknown character.
pub open spec fn unknown_char(c: u8) -> Seq<char> {
    "karakter tak dikenal '"@ + seq![c as char] + "'"@
}

/// Lex the operator or punctuation at `i`.
fn lex_op(b: &[u8], i: usize) -> (r: Result<(Sym, usize), String>)
    requires
        i < b@.len(),
    ensures
        match op_at(b@, i as int) {
            Some((s, n)) => r matches Ok((t, m)) && t == s && m == n,
            None => r matches Err(e) && e@ == unknown_char(b@[i as int]),
        },
{
    let _n = b.len();
    let two = i + 1 < b.len();
    if two && b[i] == 61 && b[i + 1] == 61 {
        return Ok((Sym::EqEq, i + 2));
    }
    if two && b[i] == 33 && b[i + 1] == 61 {
        return Ok((Sym::Ne, i + 2));
    }
    if two && b[i] == 60 && b[i + 1] == 61 {
        return Ok((Sym::Le, i + 2));
    }
    if two && b[i] == 62 && b[i + 1] == 61 {
        return Ok((Sym::Ge, i + 2));
    }
    if two && b[i] == 38 && b[i + 1] == 38 {
        return Ok((Sym::AndAnd, i + 2));
    }
    if two && b[i] == 124 && b[i + 1] == 124 {
        return Ok((Sym::OrOr, i + 2));
    }
    let c = b[i];
    let t = if c == 43 { Sym::Plus } else if c == 45 { Sym::Minus } else if c == 42 { Sym::Star }
        else if c == 47 { Sym::Slash } else if c == 37 { Sym::Percent } else if c == 60 { Sym::Lt }
        else if c == 62 { Sym::Gt } else if c == 33 { Sym::Bang } else if c == 61 { Sym::Assign }
        else if c == 40 { Sym::LParen } else if c == 41 { Sym::RParen } else if c == 123 { Sym::LBrace }
        else if c == 125 { Sym::RBrace } else if c == 44 { Sym::Comma } else if c == 59 { Sym::Semi }
        else if c == 58 { Sym::Colon } else if c == 46 { Sym::Dot } else {
            let mut e = owned("karakter tak dikenal '");
            string_push(&mut e, c as char);
            push_str(&mut e, "'");
            return Err(e);
        };
    Ok((t, i + 1))
}

/// What lexing produces: the tokens, or a lexical error.
pub enum LexOut {
    Toks(Seq<STok>),
    Fail(Seq<char>),
}

/// `ts` in front of the tokens of `r`.
pub open spec fn prepend(ts: Seq<STok>, r: LexOut) -> LexOut {
    match r {
        LexOut::Toks(x) => LexOut::Toks(ts + x),
        o => o,
    }
}

/// The first newline at or after `i` (or the end).
pub open spec fn line_end(b: Seq<u8>, i: nat) -> nat
    decreases b.len() - i,
{
    if i < b.len() && b[i as int] != 10 { line_end(b, i + 1) } else { i }
}

/// Where a block comment body starting at `i` ends: at its `*/`, or at the
/// last byte.
pub open spec fn block_end(b: Seq<u8>, i: nat) -> nat
    decreases b.len() - i,
{
    if i + 1 < b.len() && !(b[i as int] == 42 && b[i as int + 1] == 47) { block_end(b, i + 1) } else { i }
}

proof fn lemma_line_end(b: Seq<u8>, i: nat)
    ensures
        i <= line_end(b, i),
        i <= b.len() ==> line_end(b, i) <= b.len(),
    decreases b.len() - i,
{
    if i < b.len() && b[i as int] != 10 {
        lemma_line_end(b, i + 1);
    }
}

proof fn lemma_block_end(b: Seq<u8>, i: nat)
    ensures
        i <= block_end(b, i),
        i + 1 < b.len() ==> block_end(b, i) + 1 <= b.len(),
        block_end(b, i) > i ==> block_end(b, i) + 1 <= b.len(),
    decreases b.len() - i,
{
    if i + 1 < b.len() && !(b[i as int] == 42 && b[i as int + 1] == 47) {
        lemma_block_end(b, i + 1);
    }
}

/// The JavaScript lexer from byte `i`: `//` and `/* */` comments and
/// whitespace are skipped; quotes start strings, digits numbers, letters or
/// `_` words; anything else must be an operator.
pub open spec fn lex_from(b: Seq<u8>, i: nat) -> LexOut
    decreases b.len() + 1 - i,
{
    if i >= b.len() {
        LexOut::Toks(Seq::empty())
    } else {
        let c = b[i as int];
        if c == 47 && i + 1 < b.len() && b[i as int + 1] == 47 {
            let j = line_end(b, i);
            if i < j <= b.len() { lex_from(b, j) } else { LexOut::Toks(Seq::empty()) }
        } else if c == 47 && i + 1 < b.len() && b[i as int + 1] == 42 {
            let j = block_end(b, i + 2) + 2;
            if i < j <= b.len() + 1 { lex_from(b, j) } else { LexOut::Toks(Seq::empty()) }
        } else if is_space(c) {
            lex_from(b, i + 1)
        } else if c == 34 || c == 39 {
            match scan_str(b, c, i + 1) {
                Some((st, n)) => if i < n <= b.len() { prepend(seq![STok::Str(st)], lex_from(b, n)) } else { LexOut::Toks(Seq::empty()) },
                None => LexOut::Fail("string tak ditutup"@),
            }
        } else if is_digit(c) {
            let e = run_end(b, i, false);
            if digits_val(b, i as int, e as int) > i64::MAX {
                LexOut::Fail("angka terlalu besar"@)
            } else if i < e <= b.len() {
                prepend(seq![STok::Int(digits_val(b, i as int, e as int) as i64)], lex_from(b, e))
            } else {
                LexOut::Toks(Seq::empty())
            }
        } else if c == 95 || is_alpha(c) {
            let e = run_end(b, i, true);
            if i < e <= b.len() { prepend(seq![ident_stok(bytes_text(b, i as int, e as int))], lex_from(b, e)) } else { LexOut::Toks(Seq::empty()) }
        } else {
            match op_at(b, i as int) {
                Some((sym, n)) => if i < n <= b.len() { prepend(seq![STok::P(sym)], lex_from(b, n as nat)) } else { LexOut::Toks(Seq::empty()) },
                None => LexOut::Fail(unknown_char(c)),
            }
        }
    }
}

proof fn lemma_scan_str_end(b: Seq<u8>, q: u8, i: nat)
    ensures
        scan_str(b, q, i) matches Some((s, n)) ==> i < n <= b.len(),
    decreases b.len() - i,
{
    if i < b.len() && b[i as int] != q {
        if b[i as int] == 92 && i + 1 < b.len() {
            lemma_scan_str_end(b, q, i + 2);
        } else {
            lemma_scan_str_end(b, q, i + 1);
        }
    }
}

proof fn lemma_prepend(a: Seq<STok>, b: Seq<STok>, r: LexOut)
    ensures
        prepend(a, prepend(b, r)) == prepend(a + b, r),
{
    match r {
        LexOut::Toks(x) => { assert(a + (b + x) =~= (a + b) + x); },
        _ => {},
    }
}

/// `r` is what lexing gave: the tokens or the error of `o`.
pub open spec fn lexed(o: LexOut, r: Result<Vec<Tok>, String>) -> bool {
    match o {
        LexOut::Toks(ts) => r matches Ok(v) && stoks(v@) == ts,
        LexOut::Fail(m) => r matches Err(e) && e@ == m,
    }
}

/// A failure after some tokens is that failure.
proof fn lemma_prepend_fail(ts: Seq<STok>, m: Seq<char>)
    ensures
        prepend(ts, LexOut::Fail(m)) == LexOut::Fail(m),
{
}

/// Tokenize JavaScript source (see [`lex_from`]).
pub fn lex_js(src: &str) -> (r: Result<Vec<Tok>, String>)
    ensures
        lexed(lex_from(vstd::utf8::encode_utf8(src@), 0), r),
{
    lex_bytes(src.as_bytes())
}

/// Tokenize JavaScript source given as bytes (see [`lex_from`]).
fn lex_bytes(b: &[u8]) -> (r: Result<Vec<Tok>, String>)
    ensures
        lexed(lex_from(b@, 0), r),
{
    let ghost bs = b@;
    let mut i: usize = 0;
    let mut out: Vec<Tok> = Vec::new();
    assert(prepend(Seq::empty(), lex_from(bs, 0)) == lex_from(bs, 0)) by {
        match lex_from(bs, 0) { LexOut::Toks(x) => { assert(Seq::<STok>::empty() + x =~= x); }, _ => {} }
    }
    while i < b.len()
        invariant
            bs == b@,
            i <= b@.len(),
            lex_from(bs, 0) == prepend(stoks(out@), lex_from(bs, i as nat)),
        ensures
            i == b@.len(),
            lex_from(bs, 0) == prepend(stoks(out@), lex_from(bs, i as nat)),
        decreases b@.len() - i,
    {
        let ghost out0 = stoks(out@);
        let c = b[i];
        if c == 47 && i + 1 < b.len() && b[i + 1] == 47 {
            let ghost i0 = i as nat;
            proof { lemma_line_end(bs, i as nat); }
            while i < b.len() && b[i] != 10
                invariant
                    bs == b@,
                    i0 <= i <= b@.len(),
                    line_end(bs, i0) == line_end(bs, i as nat),
                decreases b@.len() - i,
            {
                i = i + 1;
            }
            assert(line_end(bs, i as nat) == i);
            assert(i0 < i) by { assert(bs[i0 as int] == 47); }
            if i == b.len() {
                assert(lex_from(bs, i as nat) == LexOut::Toks(Seq::empty()));
            }
            continue;
        }
        if c == 47 && i + 1 < b.len() && b[i + 1] == 42 {
            let ghost i0 = i as nat;
            let _n = b.len();
            i = i + 2;
            proof { lemma_block_end(bs, i as nat); }
            while i < b.len() && i + 1 < b.len() && !(b[i] == 42 && b[i + 1] == 47)
                invariant
                    i <= b@.len() <= usize::MAX,
                    i0 + 2 <= i,
                    block_end(bs, (i0 + 2) as nat) == block_end(bs, i as nat),
                    bs == b@,
                decreases b@.len() - i,
            {
                i = i + 1;
            }
            proof { lemma_block_end(bs, (i0 + 2) as nat); }
            assert(block_end(bs, i as nat) == i);
            if i < b.len() && i + 1 < b.len() {
                i = i + 2;
                continue;
            }
            assert(lex_from(bs, (i + 2) as nat) == LexOut::Toks(Seq::empty()));
            assert(lex_from(bs, i0) == LexOut::Toks(Seq::empty()));
            i = b.len();
            assert(lex_from(bs, i as nat) == LexOut::Toks(Seq::empty()));
            break;
        }
        if space(c) {
            i = i + 1;
            continue;
        }
        if c == 34 || c == 39 {
            proof { lemma_scan_str_end(bs, c, (i + 1) as nat); }
            let (st, ni) = match lex_string(b, i) {
                Ok(x) => x,
                Err(e) => {
                    return Err(e);
                },
            };
            let ghost t = STok::Str(st@);
            out.push(Tok::Str(st));
            proof {
                assert(stoks(out@) =~= out0 + seq![t]);
                lemma_prepend(out0, seq![t], lex_from(bs, ni as nat));
            }
            i = ni;
            continue;
        }
        if digit(c) {
            if !number_fits(b, i) {
                proof { lemma_prepend_fail(out0, "angka terlalu besar"@); }
                return Err(owned("angka terlalu besar"));
            }
            let (n, ni) = lex_number(b, i);
            out.push(Tok::Int(n));
            proof {
                lemma_run_end(bs, i as nat, false);
                assert(stoks(out@) =~= out0 + seq![STok::Int(n)]);
                lemma_prepend(out0, seq![STok::Int(n)], lex_from(bs, ni as nat));
            }
            i = ni;
            continue;
        }
        if c == 95 || (65 <= c && c <= 90) || (97 <= c && c <= 122) {
            proof { lemma_run_end(bs, i as nat, true); }
            let (w, ni) = lex_ident(b, i);
            let t = ident_tok(w);
            let ghost st = stok(t);
            out.push(t);
            proof {
                assert(stoks(out@) =~= out0 + seq![st]);
                lemma_prepend(out0, seq![st], lex_from(bs, ni as nat));
            }
            i = ni;
            continue;
        }
        let (sym, ni) = match lex_op(b, i) {
            Ok(x) => x,
            Err(e) => {
                assert(lex_from(bs, i as nat) == LexOut::Fail(unknown_char(c)));
                return Err(e);
            },
        };
        out.push(Tok::P(sym));
        proof {
            assert(stoks(out@) =~= out0 + seq![STok::P(sym)]);
            lemma_prepend(out0, seq![STok::P(sym)], lex_from(bs, ni as nat));
        }
        i = ni;
    }
    proof {
        assert(lex_from(bs, i as nat) == LexOut::Toks(Seq::empty()));
        assert(stoks(out@) + Seq::<STok>::empty() =~= stoks(out@));
    }
    Ok(out)
}

/// Length of the Unicode whitespace character encoded at `b[i..]` (0 when
/// there is none).
pub open spec fn ws_len(b: Seq<u8>, i: int) -> int {
    if 0 <= i < b.len() && (b[i] == 9 || b[i] == 10 || b[i] == 11 || b[i] == 12 || b[i] == 13 || b[i] == 32) {
        1
    } else if 0 <= i && i + 1 < b.len() && b[i] == 0xC2 && (b[i + 1] == 0x85 || b[i + 1] == 0xA0) {
        2
    } else if 0 <= i && i + 2 < b.len() && (
        (b[i] == 0xE1 && b[i + 1] == 0x9A && b[i + 2] == 0x80)
        || (b[i] == 0xE2 && b[i + 1] == 0x80 && (b[i + 2] <= 0x8A && b[i + 2] >= 0x80 || b[i + 2] == 0xA8
            || b[i + 2] == 0xA9 || b[i + 2] == 0xAF))
        || (b[i] == 0xE2 && b[i + 1] == 0x81 && b[i + 2] == 0x9F)
        || (b[i] == 0xE3 && b[i + 1] == 0x80 && b[i + 2] == 0x80)) {
        3
    } else {
        0
    }
}

/// Length of a whitespace character ending at `e` within `b[s..e]` (0 when
/// none).
pub open spec fn ws_len_before(b: Seq<u8>, s: int, e: int) -> int {
    if e - 1 >= s && ws_len(b, e - 1) == 1 {
        1
    } else if e - 2 >= s && ws_len(b, e - 2) == 2 {
        2
    } else if e - 3 >= s && ws_len(b, e - 3) == 3 {
        3
    } else {
        0
    }
}

/// Bytes of leading whitespace in `b[i..e]`.
pub open spec fn lead_ws(b: Seq<u8>, i: int, e: int) -> int
    decreases e - i,
{
    if i < e && ws_len(b, i) > 0 && i + ws_len(b, i) <= e { ws_len(b, i) + lead_ws(b, i + ws_len(b, i), e) } else { 0 }
}

/// Bytes of trailing whitespace in `b[s..e]`.
pub open spec fn trail_ws(b: Seq<u8>, s: int, e: int) -> int
    decreases e - s,
{
    if ws_len_before(b, s, e) > 0 { ws_len_before(b, s, e) + trail_ws(b, s, e - ws_len_before(b, s, e)) } else { 0 }
}

proof fn lemma_lead_ws(b: Seq<u8>, i: int, e: int)
    ensures
        i <= e ==> 0 <= lead_ws(b, i, e) <= e - i,
    decreases e - i,
{
    if i < e && ws_len(b, i) > 0 && i + ws_len(b, i) <= e {
        lemma_lead_ws(b, i + ws_len(b, i), e);
    }
}

proof fn lemma_trail_ws(b: Seq<u8>, s: int, e: int)
    ensures
        s <= e ==> 0 <= trail_ws(b, s, e) <= e - s,
    decreases e - s,
{
    if ws_len_before(b, s, e) > 0 {
        lemma_trail_ws(b, s, e - ws_len_before(b, s, e));
    }
}

/// The whitespace character length at `i` (see [`ws_len`]).
fn ws_at(b: &[u8], i: usize) -> (n: usize)
    ensures
        n == ws_len(b@, i as int),
{
    let _n = b.len();
    if i < b.len() && (b[i] == 9 || b[i] == 10 || b[i] == 11 || b[i] == 12 || b[i] == 13 || b[i] == 32) {
        1
    } else if i < b.len() && i + 1 < b.len() && b[i] == 0xC2 && (b[i + 1] == 0x85 || b[i + 1] == 0xA0) {
        2
    } else if i < b.len() && i + 1 < b.len() && i + 2 < b.len() && (
        (b[i] == 0xE1 && b[i + 1] == 0x9A && b[i + 2] == 0x80)
        || (b[i] == 0xE2 && b[i + 1] == 0x80 && (b[i + 2] <= 0x8A && b[i + 2] >= 0x80 || b[i + 2] == 0xA8
            || b[i + 2] == 0xA9 || b[i + 2] == 0xAF))
        || (b[i] == 0xE2 && b[i + 1] == 0x81 && b[i + 2] == 0x9F)
        || (b[i] == 0xE3 && b[i + 1] == 0x80 && b[i + 2] == 0x80)) {
        3
    } else {
        0
    }
}

/// The lines of `b` from `i`, as `str::lines` splits them: at `\n`, a
/// `\r` right before it dropped, no empty line after a final `\n`.
pub open spec fn split_lines(b: Seq<u8>, i: nat) -> Seq<(int, int)>
    decreases b.len() + 1 - i,
{
    if i >= b.len() {
        Seq::empty()
    } else {
        let j = line_end(b, i);
        let e = if j < b.len() && j > i && b[j - 1] == 13 { j - 1 } else { j as int };
        if i <= j <= b.len() { seq![(i as int, e)] + split_lines(b, j + 1) } else { Seq::empty() }
    }
}

/// The end of a line's code: its first `#` (or the line's end).
pub open spec fn code_end(b: Seq<u8>, i: int, e: int) -> int
    decreases e - i,
{
    if i < e && b[i] != 35 { code_end(b, i + 1, e) } else { i }
}

/// How many open indentation levels a line indented by `ind` closes.
pub open spec fn pops(indents: Seq<nat>, ind: nat) -> nat
    decreases indents.len(),
{
    if indents.len() > 0 && ind < indents.last() { 1 + pops(indents.drop_last(), ind) } else { 0 }
}

/// `k` dedent tokens.
pub open spec fn dedents(k: nat) -> Seq<STok> {
    Seq::new(k, |i: int| STok::P(Sym::Dedent))
}

/// One Python source line `b[s..e]` with the open indentation levels
/// `lv`: its tokens (nothing for a blank or comment-only line; else an
/// indent token when it is deeper than the innermost level or a dedent for
/// each level it closes, the trimmed code lexed as JavaScript, a newline
/// token) and the levels after it.
pub open spec fn py_line(b: Seq<u8>, s: int, e: int, lv: Seq<nat>) -> (LexOut, Seq<nat>) {
    let c = code_end(b, s, e);
    let lead = lead_ws(b, s, c);
    let t0 = s + lead;
    let t1 = c - trail_ws(b, t0, c);
    if t0 >= t1 {
        (LexOut::Toks(Seq::empty()), lv)
    } else {
        let ind = lead as nat;
        let (pre, next) = if ind > lv.last() {
            (seq![STok::P(Sym::Indent)], lv.push(ind))
        } else {
            (dedents(pops(lv, ind)), lv.take(lv.len() - pops(lv, ind)))
        };
        match lex_from(b.subrange(t0, t1), 0) {
            LexOut::Toks(ts) => (LexOut::Toks(pre + ts + seq![STok::P(Sym::Newline)]), next),
            other => (other, next),
        }
    }
}

/// The Python lexer over the lines `ls` of `b` (see [`py_line`]), the
/// levels still open at the end closed by dedent tokens.
pub open spec fn py_lex(b: Seq<u8>, ls: Seq<(int, int)>, lv: Seq<nat>) -> LexOut
    decreases ls.len(),
{
    if ls.len() == 0 {
        LexOut::Toks(dedents((lv.len() - 1) as nat))
    } else {
        let (s, e) = ls[0];
        let (o, next) = py_line(b, s, e, lv);
        match o {
            LexOut::Toks(ts) => prepend(ts, py_lex(b, ls.drop_first(), next)),
            other => other,
        }
    }
}

/// The whitespace character length ending at `e` within `b[s..e]`.
fn ws_end(b: &[u8], s: usize, e: usize) -> (n: usize)
    requires
        s <= e <= b@.len(),
    ensures
        n == ws_len_before(b@, s as int, e as int),
{
    if e - s >= 1 && ws_at(b, e - 1) == 1 {
        1
    } else if e - s >= 2 && ws_at(b, e - 2) == 2 {
        2
    } else if e - s >= 3 && ws_at(b, e - 3) == 3 {
        3
    } else {
        0
    }
}

/// Leading whitespace bytes of `b[s..e]` (see [`lead_ws`]).
fn lead_len(b: &[u8], s: usize, e: usize) -> (n: usize)
    requires
        s <= e <= b@.len(),
    ensures
        n == lead_ws(b@, s as int, e as int),
{
    let mut i = s;
    let mut done = false;
    while i < e && !done
        invariant
            s <= i <= e <= b@.len(),
            lead_ws(b@, s as int, e as int) == (i - s) + (if done { 0 } else { lead_ws(b@, i as int, e as int) }),
        decreases e - i + (if done { 0int } else { 1int }),
    {
        let w = ws_at(b, i);
        if w == 0 || w > e - i {
            done = true;
        } else {
            i = i + w;
        }
    }
    i - s
}

/// Trailing whitespace bytes of `b[s..e]` (see [`trail_ws`]).
fn trail_len(b: &[u8], s: usize, e: usize) -> (n: usize)
    requires
        s <= e <= b@.len(),
    ensures
        n == trail_ws(b@, s as int, e as int),
{
    let mut j = e;
    let mut done = false;
    while j > s && !done
        invariant
            s <= j <= e <= b@.len(),
            trail_ws(b@, s as int, e as int) == (e - j) + (if done { 0 } else { trail_ws(b@, s as int, j as int) }),
        decreases j - s + (if done { 0int } else { 1int }),
    {
        let w = ws_end(b, s, j);
        if w == 0 {
            done = true;
        } else {
            j = j - w;
        }
    }
    e - j
}

/// Indentation levels as numbers.
pub open spec fn levels(v: Seq<usize>) -> Seq<nat> {
    v.map_values(|x: usize| x as nat)
}

/// Lex one source line `b[s..e]` (see [`py_line`]), appending its tokens
/// and updating the indentation levels.
fn lex_py_line(b: &[u8], s: usize, e: usize, out: &mut Vec<Tok>, indents: &mut Vec<usize>) -> (r: Result<(), String>)
    requires
        s <= e <= b@.len(),
        old(indents)@.len() >= 1 && old(indents)@[0] == 0,
    ensures
        final(indents)@.len() >= 1 && final(indents)@[0] == 0,
        match py_line(b@, s as int, e as int, levels(old(indents)@)) {
            (LexOut::Toks(ts), next) => r is Ok && stoks(final(out)@) == stoks(old(out)@) + ts
                && levels(final(indents)@) == next,
            (LexOut::Fail(m), _) => r matches Err(x) && x@ == m,
        },
{
    let ghost (bs, out0, lv0) = (b@, stoks(out@), levels(indents@));
    let mut c = s;
    while c < e && b[c] != 35
        invariant
            s <= c <= e,
            e <= b@.len(),
            code_end(bs, s as int, e as int) == code_end(bs, c as int, e as int),
            bs == b@,
        decreases e - c,
    {
        c = c + 1;
    }
    assert(code_end(bs, c as int, e as int) == c);
    let ld = lead_len(b, s, c);
    proof { lemma_lead_ws(bs, s as int, c as int); }
    let t0 = s + ld;
    let tr = trail_len(b, t0, c);
    proof { lemma_trail_ws(bs, t0 as int, c as int); }
    let t1 = c - tr;
    if t0 >= t1 {
        assert(stoks(out@) =~= out0 + Seq::<STok>::empty());
        return Ok(());
    }
    let ind = t0 - s;
    let last = indents[indents.len() - 1];
    let ghost k = pops(lv0, ind as nat);
    let ghost mut d: nat = 0;
    if ind > last {
        indents.push(ind);
        out.push(Tok::P(Sym::Indent));
        assert(levels(indents@) =~= lv0.push(ind as nat));
        assert(stoks(out@) =~= out0 + seq![STok::P(Sym::Indent)]);
    } else {
        assert(dedents(0) =~= Seq::<STok>::empty());
        assert(stoks(out@) =~= out0 + dedents(0));
        assert(lv0.take(lv0.len() - 0) =~= lv0);
        while ind < indents[indents.len() - 1]
            invariant
                indents@.len() >= 1 && indents@[0] == 0,
                k == pops(lv0, ind as nat),
                k == d + pops(levels(indents@), ind as nat),
                levels(indents@) == lv0.take(lv0.len() - d),
                d <= lv0.len(),
                stoks(out@) == out0 + dedents(d),
            decreases indents@.len(),
        {
            let ghost lv = levels(indents@);
            let ghost so = stoks(out@);
            assert(indents@.len() > 1) by {
                if indents@.len() == 1 { assert(indents@[0] == 0); }
            }
            indents.pop();
            out.push(Tok::P(Sym::Dedent));
            proof {
                assert(levels(indents@) =~= lv.drop_last());
                assert(lv.len() == lv0.len() - d);
                assert(lv.drop_last() =~= lv0.take(lv0.len() - (d + 1)));
                assert(stoks(out@) =~= so.push(STok::P(Sym::Dedent)));
                assert(so.push(STok::P(Sym::Dedent)) =~= out0 + dedents(d + 1));
                d = d + 1;
            }
        }
        assert(pops(levels(indents@), ind as nat) == 0);
    }
    let ghost pre = if ind > last { seq![STok::P(Sym::Indent)] } else { dedents(k) };
    assert(stoks(out@) == out0 + pre);
    let sub = vstd::slice::slice_subrange(b, t0, t1);
    assert(sub@ =~= bs.subrange(t0 as int, t1 as int));
    let mut toks = match lex_bytes(sub) {
        Ok(v) => v,
        Err(x) => {
            return Err(x);
        },
    };
    let ghost ts = stoks(toks@);
    let ghost (o1, tv) = (out@, toks@);
    out.append(&mut toks);
    assert(stoks(out@) =~= stoks(o1) + stoks(tv));
    let ghost so = stoks(out@);
    out.push(Tok::P(Sym::Newline));
    assert(stoks(out@) =~= so.push(STok::P(Sym::Newline)));
    assert(stoks(out@) =~= out0 + (pre + ts + seq![STok::P(Sym::Newline)]));
    Ok(())
}

/// Tokenize Python source (see [`py_lex`]).
pub fn lex_py(src: &str) -> (r: Result<Vec<Tok>, String>)
    ensures
        lexed(py_lex(vstd::utf8::encode_utf8(src@), split_lines(vstd::utf8::encode_utf8(src@), 0), seq![0nat]), r),
{
    let b = src.as_bytes();
    let ghost bs = b@;
    let ghost whole = py_lex(bs, split_lines(bs, 0), seq![0nat]);
    let mut out: Vec<Tok> = Vec::new();
    let mut indents: Vec<usize> = vec![0];
    let mut i: usize = 0;
    assert(levels(indents@) =~= seq![0nat]);
    assert(prepend(Seq::empty(), whole) == whole) by {
        match whole { LexOut::Toks(x) => { assert(Seq::<STok>::empty() + x =~= x); }, _ => {} }
    }
    while i < b.len()
        invariant
            bs == b@,
            bs == vstd::utf8::encode_utf8(src@),
            whole == py_lex(bs, split_lines(bs, 0), seq![0nat]),
            i <= b@.len(),
            indents@.len() >= 1 && indents@[0] == 0,
            whole == prepend(stoks(out@), py_lex(bs, split_lines(bs, i as nat), levels(indents@))),
        ensures
            indents@.len() >= 1 && indents@[0] == 0,
            whole == prepend(stoks(out@), py_lex(bs, Seq::empty(), levels(indents@))),
        decreases b@.len() - i,
    {
        let ghost (out0, lv0) = (stoks(out@), levels(indents@));
        proof { lemma_line_end(bs, i as nat); }
        let mut j = i;
        while j < b.len() && b[j] != 10
            invariant
                i <= j <= b@.len(),
                line_end(bs, i as nat) == line_end(bs, j as nat),
                bs == b@,
            decreases b@.len() - j,
        {
            j = j + 1;
        }
        assert(line_end(bs, j as nat) == j);
        let e = if j < b.len() && j > i && b[j - 1] == 13 { j - 1 } else { j };
        proof {
            assert(split_lines(bs, i as nat) =~= seq![(i as int, e as int)] + split_lines(bs, (j + 1) as nat));
            assert(split_lines(bs, i as nat)[0] == (i as int, e as int));
            assert(split_lines(bs, i as nat).drop_first() =~= split_lines(bs, (j + 1) as nat));
        }
        let ghost step = py_line(bs, i as int, e as int, lv0);
        match lex_py_line(b, i, e, &mut out, &mut indents) {
            Ok(()) => {},
            Err(x) => {
                assert(py_lex(bs, split_lines(bs, i as nat), lv0) == step.0);
                return Err(x);
            },
        }
        proof {
            let ts = step.0->Toks_0;
            lemma_prepend(out0, ts, py_lex(bs, split_lines(bs, (j + 1) as nat), step.1));
        }
        if j >= b.len() {
            i = b.len();
            assert(split_lines(bs, i as nat) =~= Seq::<(int, int)>::empty());
            break;
        }
        i = j + 1;
    }
    while indents.len() > 1
        invariant
            indents@.len() >= 1 && indents@[0] == 0,
            whole == prepend(stoks(out@), py_lex(bs, Seq::empty(), levels(indents@))),
        decreases indents@.len(),
    {
        let ghost (out0, n) = (stoks(out@), indents@.len());
        indents.pop();
        out.push(Tok::P(Sym::Dedent));
        proof {
            assert(stoks(out@) + dedents((n - 2) as nat) =~= out0 + dedents((n - 1) as nat));
        }
    }
    assert(stoks(out@) + dedents(0) =~= stoks(out@));
    Ok(out)
}
// ----------------------------------------------------------------------------
// TypeScript -> JavaScript (type stripping)

/// `w` stands at `b[i..]` as a whole word (no identifier byte right before
/// or after it).
pub open spec fn word_at_spec(b: Seq<u8>, i: int, w: Seq<u8>) -> bool {
    &&& 0 <= i && i + w.len() <= b.len() && b.subrange(i, i + w.len()) == w
    &&& (i == 0 || !is_word(b[i - 1]))
    &&& (i + w.len() >= b.len() || !is_word(b[i + w.len()]))
}

/// Whether `word` stands at `b[i..]` as a whole word.
fn word_at(b: &[u8], i: usize, kw: &str) -> (r: bool)
    requires
        i <= b@.len(),
    ensures
        r == word_at_spec(b@, i as int, vstd::utf8::encode_utf8(kw@)),
{
    let w = kw.as_bytes();
    let _n = b.len();
    if w.len() > b.len() - i {
        return false;
    }
    let sub = vstd::slice::slice_subrange(b, i, i + w.len());
    if !crate::bytes::bytes_eq(sub, w) {
        return false;
    }
    let before_ok = i == 0 || !word(b[i - 1]);
    let after = i + w.len();
    let after_ok = after >= b.len() || !word(b[after]);
    before_ok && after_ok
}

/// Where the brace block opened at `j` (depth `d` before `b[j]`) is closed:
/// the index after its matching `}`, or the end.
pub open spec fn block_close(b: Seq<u8>, j: nat, d: nat) -> nat
    decreases b.len() - j,
{
    if j >= b.len() {
        b.len()
    } else {
        let d1 = if b[j as int] == 123 { d + 1 } else { d };
        if b[j as int] == 125 && d1 == 1 {
            j + 1
        } else if b[j as int] == 125 {
            block_close(b, j + 1, (d1 - 1) as nat)
        } else {
            block_close(b, j + 1, d1)
        }
    }
}

/// The first `{` at or after `j` (or the end).
pub open spec fn next_brace(b: Seq<u8>, j: nat) -> nat
    decreases b.len() - j,
{
    if j < b.len() && b[j as int] != 123 { next_brace(b, j + 1) } else { j }
}

/// `b` from `i` with every `word { ... }` block (braces matched) removed,
/// each other byte taken as a character; a `word` with no `{` after it
/// ends the text.
pub open spec fn strip_block_from(b: Seq<u8>, w: Seq<u8>, i: nat) -> Seq<char>
    decreases b.len() - i,
{
    if i >= b.len() {
        Seq::empty()
    } else if word_at_spec(b, i as int, w) {
        let j = next_brace(b, i);
        if j >= b.len() {
            Seq::empty()
        } else {
            let k = block_close(b, j, 0);
            if i < k <= b.len() { strip_block_from(b, w, k) } else { Seq::empty() }
        }
    } else {
        seq![b[i as int] as char] + strip_block_from(b, w, i + 1)
    }
}

proof fn lemma_next_brace(b: Seq<u8>, j: nat)
    ensures
        j <= next_brace(b, j),
        j <= b.len() ==> next_brace(b, j) <= b.len(),
        next_brace(b, j) < b.len() ==> b[next_brace(b, j) as int] == 123,
    decreases b.len() - j,
{
    if j < b.len() && b[j as int] != 123 {
        lemma_next_brace(b, j + 1);
    }
}

proof fn lemma_block_close(b: Seq<u8>, j: nat, d: nat)
    requires
        j <= b.len(),
    ensures
        j < block_close(b, j, d) <= b.len() || (j == b.len() && block_close(b, j, d) == b.len()),
    decreases b.len() - j,
{
    if j < b.len() {
        let d1 = if b[j as int] == 123 { d + 1 } else { d };
        if b[j as int] == 125 && d1 == 1 {
        } else if b[j as int] == 125 {
            lemma_block_close(b, j + 1, (d1 - 1) as nat);
        } else {
            lemma_block_close(b, j + 1, d1);
        }
    }
}

/// Remove `word { ... }` blocks (see [`strip_block_from`]).
fn strip_word_block(src: &str, word: &str) -> (out: String)
    ensures
        out@ == strip_block_from(vstd::utf8::encode_utf8(src@), vstd::utf8::encode_utf8(word@), 0),
{
    let b = src.as_bytes();
    let ghost (bs, ws) = (b@, vstd::utf8::encode_utf8(word@));
    let mut out = String::new();
    let mut i: usize = 0;
    while i < b.len()
        invariant
            bs == b@,
            ws == vstd::utf8::encode_utf8(word@),
            i <= b@.len(),
            out@ + strip_block_from(bs, ws, i as nat) == strip_block_from(bs, ws, 0),
        ensures
            out@ == strip_block_from(bs, ws, 0),
        decreases b@.len() - i,
    {
        if word_at(b, i, word) {
            proof { lemma_next_brace(bs, i as nat); }
            let mut j = i;
            while j < b.len() && b[j] != 123
                invariant
                    i <= j <= b@.len(),
                    next_brace(bs, i as nat) == next_brace(bs, j as nat),
                    bs == b@,
                decreases b@.len() - j,
            {
                j = j + 1;
            }
            if j >= b.len() {
                assert(out@ + Seq::<char>::empty() =~= out@);
                break;
            }
            let ghost j0 = j as nat;
            proof { lemma_block_close(bs, j0, 0); }
            let mut depth: usize = 0;
            let mut closed = false;
            while j < b.len() && !closed
                invariant
                    j0 <= j <= b@.len(),
                    bs == b@,
                    depth <= j,
                    !closed ==> block_close(bs, j0, 0) == block_close(bs, j as nat, depth as nat),
                    closed ==> block_close(bs, j0, 0) == j,
                    !closed && j > j0 ==> depth >= 1,
                    bs[j0 as int] == 123,
                    j0 < b@.len(),
                decreases b@.len() - j + (if closed { 0int } else { 1int }),
            {
                if b[j] == 123 {
                    depth = depth + 1;
                }
                if b[j] == 125 {
                    if depth == 1 {
                        closed = true;
                    } else {
                        depth = depth - 1;
                    }
                }
                j = j + 1;
            }
            proof { lemma_block_close(bs, j0, 0); }
            i = j;
            continue;
        }
        string_push(&mut out, b[i] as char);
        i = i + 1;
    }
    out
}

/// The first `;` or newline at or after `i` (or the end).
pub open spec fn stmt_end(b: Seq<u8>, i: nat) -> nat
    decreases b.len() - i,
{
    if i < b.len() && b[i as int] != 59 && b[i as int] != 10 { stmt_end(b, i + 1) } else { i }
}

/// `b` from `i` with every `type ...;` alias (up to and including its `;`
/// or newline) removed, each other byte taken as a character.
pub open spec fn strip_alias_from(b: Seq<u8>, i: nat) -> Seq<char>
    decreases b.len() - i,
{
    if i >= b.len() {
        Seq::empty()
    } else if word_at_spec(b, i as int, seq![116u8, 121u8, 112u8, 101u8]) {
        let j = stmt_end(b, i);
        let k = if j < b.len() { j + 1 } else { j };
        if i < k <= b.len() { strip_alias_from(b, k) } else { Seq::empty() }
    } else {
        seq![b[i as int] as char] + strip_alias_from(b, i + 1)
    }
}

proof fn lemma_stmt_end(b: Seq<u8>, i: nat)
    ensures
        i <= stmt_end(b, i),
        i <= b.len() ==> stmt_end(b, i) <= b.len(),
    decreases b.len() - i,
{
    if i < b.len() && b[i as int] != 59 && b[i as int] != 10 {
        lemma_stmt_end(b, i + 1);
    }
}

/// Remove `type` aliases (see [`strip_alias_from`]).
fn strip_type_alias(src: &str) -> (out: String)
    ensures
        out@ == strip_alias_from(vstd::utf8::encode_utf8(src@), 0),
{
    let b = src.as_bytes();
    let ghost bs = b@;
    proof {
        reveal_strlit("type");
        assert(vstd::utf8::encode_utf8("type"@) =~= seq![116u8, 121u8, 112u8, 101u8]) by {
            vstd::utf8::is_ascii_chars_encode_utf8("type"@);
        }
    }
    let mut out = String::new();
    let mut i: usize = 0;
    while i < b.len()
        invariant
            bs == b@,
            i <= b@.len(),
            vstd::utf8::encode_utf8("type"@) == seq![116u8, 121u8, 112u8, 101u8],
            out@ + strip_alias_from(bs, i as nat) == strip_alias_from(bs, 0),
        decreases b@.len() - i,
    {
        if word_at(b, i, "type") {
            let ghost i0 = i as nat;
            proof { lemma_stmt_end(bs, i0); }
            while i < b.len() && b[i] != 59 && b[i] != 10
                invariant
                    i0 <= i <= b@.len(),
                    stmt_end(bs, i0) == stmt_end(bs, i as nat),
                    bs == b@,
                decreases b@.len() - i,
            {
                i = i + 1;
            }
            if i < b.len() {
                i = i + 1;
            }
            assert(i0 < i) by {
                assert(bs[i0 as int] == 116u8) by {
                    assert(bs.subrange(i0 as int, i0 as int + 4)[0] == 116u8);
                }
            }
            continue;
        }
        string_push(&mut out, b[i] as char);
        i = i + 1;
    }
    assert(out@ + Seq::<char>::empty() =~= out@);
    out
}

/// The first type-annotation delimiter (`,` `)` `;` `{` `=` newline) at or
/// after `i` (or the end).
pub open spec fn annot_end(b: Seq<u8>, i: nat) -> nat
    decreases b.len() - i,
{
    if i < b.len() && !(b[i as int] == 44 || b[i as int] == 41 || b[i as int] == 59 || b[i as int] == 123
        || b[i as int] == 61 || b[i as int] == 10) {
        annot_end(b, i + 1)
    } else {
        i
    }
}

/// `b` from `i` with every `: Type` annotation outside string literals
/// removed up to its delimiter; `q` is the quote of the string literal
/// being copied, if any (escapes inside it copied as they are).
pub open spec fn strip_annot_from(b: Seq<u8>, i: nat, q: Option<u8>) -> Seq<char>
    decreases b.len() - i,
{
    if i >= b.len() {
        Seq::empty()
    } else {
        let c = b[i as int];
        match q {
            Some(qc) => if c == 92 && i + 1 < b.len() {
                seq![c as char, b[i as int + 1] as char] + strip_annot_from(b, i + 2, q)
            } else if c == qc {
                seq![c as char] + strip_annot_from(b, i + 1, None)
            } else {
                seq![c as char] + strip_annot_from(b, i + 1, q)
            },
            None => if c == 34 || c == 39 {
                seq![c as char] + strip_annot_from(b, i + 1, Some(c))
            } else if c == 58 {
                let j = annot_end(b, i + 1);
                if i < j <= b.len() { strip_annot_from(b, j, None) } else { Seq::empty() }
            } else {
                seq![c as char] + strip_annot_from(b, i + 1, None)
            },
        }
    }
}

proof fn lemma_annot_end(b: Seq<u8>, i: nat)
    ensures
        i <= annot_end(b, i),
        i <= b.len() ==> annot_end(b, i) <= b.len(),
    decreases b.len() - i,
{
    if i < b.len() && !(b[i as int] == 44 || b[i as int] == 41 || b[i as int] == 59 || b[i as int] == 123
        || b[i as int] == 61 || b[i as int] == 10) {
        lemma_annot_end(b, i + 1);
    }
}

/// The JavaScript a TypeScript source becomes: `interface` blocks removed,
/// then `type` aliases, then `: Type` annotations (each stage reads the
/// previous stage's text as UTF-8 and takes its bytes as characters).
pub open spec fn ts_js(src: Seq<char>) -> Seq<char> {
    let s1 = strip_block_from(vstd::utf8::encode_utf8(src), vstd::utf8::encode_utf8("interface"@), 0);
    let s2 = strip_alias_from(vstd::utf8::encode_utf8(s1), 0);
    strip_annot_from(vstd::utf8::encode_utf8(s2), 0, None)
}

/// Strip TypeScript type syntax so the JavaScript front end can run it
/// (see [`ts_js`]).
pub fn ts_to_js(src: &str) -> (out: String)
    ensures
        out@ == ts_js(src@),
{
    let s1 = strip_word_block(src, "interface");
    let s2 = strip_type_alias(s1.as_str());
    let b = s2.as_str().as_bytes();
    let ghost bs = b@;
    let mut out = String::new();
    let mut i: usize = 0;
    let mut in_str: Option<u8> = None;
    while i < b.len()
        invariant
            bs == b@,
            i <= b@.len(),
            out@ + strip_annot_from(bs, i as nat, in_str) == strip_annot_from(bs, 0, None),
        decreases b@.len() - i,
    {
        let c = b[i];
        let ghost o0 = out@;
        match in_str {
            Some(q) => {
                string_push(&mut out, c as char);
                if c == 92 && i + 1 < b.len() {
                    string_push(&mut out, b[i + 1] as char);
                    assert(out@ =~= o0 + seq![c as char, bs[i as int + 1] as char]);
                    i = i + 2;
                    continue;
                }
                assert(out@ =~= o0 + seq![c as char]);
                if c == q {
                    in_str = None;
                }
                i = i + 1;
                continue;
            },
            None => {},
        }
        if c == 34 || c == 39 {
            in_str = Some(c);
            string_push(&mut out, c as char);
            assert(out@ =~= o0 + seq![c as char]);
            i = i + 1;
            continue;
        }
        if c == 58 {
            let ghost i0 = i as nat;
            proof { lemma_annot_end(bs, (i0 + 1) as nat); }
            i = i + 1;
            while i < b.len() && !(b[i] == 44 || b[i] == 41 || b[i] == 59 || b[i] == 123 || b[i] == 61 || b[i] == 10)
                invariant
                    i0 < i <= b@.len(),
                    annot_end(bs, (i0 + 1) as nat) == annot_end(bs, i as nat),
                    bs == b@,
                decreases b@.len() - i,
            {
                i = i + 1;
            }
            assert(out@ =~= o0);
            continue;
        }
        string_push(&mut out, c as char);
        assert(out@ =~= o0 + seq![c as char]);
        i = i + 1;
    }
    assert(out@ + Seq::<char>::empty() =~= out@);
    out
}

// ----------------------------------------------------------------------------
// AST and parser

/// A binary operator.
#[derive(Clone, Copy, PartialEq, Eq, Debug, Structural)]
pub enum BinOp {
    Add,
    Sub,
    Mul,
    Div,
    Mod,
    Eq,
    Ne,
    Lt,
    Le,
    Gt,
    Ge,
    And,
    Or,
}

/// An expression.
pub enum Expr {
    Int(i64),
    Str(String),
    Bool(bool),
    Nil,
    Var(String),
    Neg(Box<Expr>),
    Not(Box<Expr>),
    Bin(BinOp, Box<Expr>, Box<Expr>),
    Call(String, Vec<Expr>),
}

/// A statement.
pub enum Stmt {
    Assign(String, Expr),
    ExprStmt(Expr),
    If(Expr, Vec<Stmt>, Vec<Stmt>),
    While(Expr, Vec<Stmt>),
    /// init, condition, increment, body
    ForC(Box<Stmt>, Expr, Box<Stmt>, Vec<Stmt>),
    /// variable, start, end (exclusive), body
    ForRange(String, Expr, Expr, Vec<Stmt>),
    Func(String, Vec<String>, Rc<Vec<Stmt>>),
    Return(Option<Expr>),
}


/// An expression as the semantics sees it: names and texts as character
/// sequences.
pub enum SExpr {
    Int(i64),
    Str(Seq<char>),
    Bool(bool),
    Nil,
    Var(Seq<char>),
    Neg(Box<SExpr>),
    Not(Box<SExpr>),
    Bin(BinOp, Box<SExpr>, Box<SExpr>),
    Call(Seq<char>, Seq<SExpr>),
}

/// A statement as the semantics sees it.
pub enum SStmt {
    Assign(Seq<char>, SExpr),
    ExprStmt(SExpr),
    If(SExpr, Seq<SStmt>, Seq<SStmt>),
    While(SExpr, Seq<SStmt>),
    ForC(Box<SStmt>, SExpr, Box<SStmt>, Seq<SStmt>),
    ForRange(Seq<char>, SExpr, SExpr, Seq<SStmt>),
    Func(Seq<char>, Seq<Seq<char>>, Seq<SStmt>),
    Return(Option<SExpr>),
}

/// An expression, as the semantics sees it.
pub open spec fn expr_v(e: Expr) -> SExpr
    decreases e,
{
    match e {
        Expr::Int(n) => SExpr::Int(n),
        Expr::Str(s) => SExpr::Str(s@),
        Expr::Bool(b) => SExpr::Bool(b),
        Expr::Nil => SExpr::Nil,
        Expr::Var(n) => SExpr::Var(n@),
        Expr::Neg(x) => SExpr::Neg(Box::new(expr_v(*x))),
        Expr::Not(x) => SExpr::Not(Box::new(expr_v(*x))),
        Expr::Bin(op, a, b) => SExpr::Bin(op, Box::new(expr_v(*a)), Box::new(expr_v(*b))),
        Expr::Call(n, args) => SExpr::Call(n@, exprs_v(args@)),
    }
}

/// A list of expressions, as the semantics sees it.
pub open spec fn exprs_v(v: Seq<Expr>) -> Seq<SExpr>
    decreases v,
{
    if v.len() == 0 {
        Seq::empty()
    } else {
        exprs_v(v.subrange(0, v.len() - 1)).push(expr_v(v[v.len() - 1]))
    }
}

/// A statement, as the semantics sees it.
pub open spec fn stmt_v(s: Stmt) -> SStmt
    decreases s,
{
    match s {
        Stmt::Assign(n, e) => SStmt::Assign(n@, expr_v(e)),
        Stmt::ExprStmt(e) => SStmt::ExprStmt(expr_v(e)),
        Stmt::If(c, th, el) => SStmt::If(expr_v(c), stmts_v(th@), stmts_v(el@)),
        Stmt::While(c, b) => SStmt::While(expr_v(c), stmts_v(b@)),
        Stmt::ForC(i, c, inc, b) => SStmt::ForC(Box::new(stmt_v(*i)), expr_v(c), Box::new(stmt_v(*inc)), stmts_v(b@)),
        Stmt::ForRange(v, a, e, b) => SStmt::ForRange(v@, expr_v(a), expr_v(e), stmts_v(b@)),
        Stmt::Func(n, ps, b) => SStmt::Func(n@, ps@.map_values(|p: String| p@), stmts_v((*b)@)),
        Stmt::Return(e) => SStmt::Return(match e { Some(x) => Some(expr_v(x)), None => None }),
    }
}

/// A list of statements, as the semantics sees it.
pub open spec fn stmts_v(v: Seq<Stmt>) -> Seq<SStmt>
    decreases v,
{
    if v.len() == 0 {
        Seq::empty()
    } else {
        stmts_v(v.subrange(0, v.len() - 1)).push(stmt_v(v[v.len() - 1]))
    }
}

proof fn lemma_exprs_v(v: Seq<Expr>)
    ensures
        exprs_v(v).len() == v.len(),
        forall|i: int| 0 <= i < v.len() ==> #[trigger] exprs_v(v)[i] == expr_v(v[i]),
    decreases v.len(),
{
    if v.len() > 0 {
        lemma_exprs_v(v.subrange(0, v.len() - 1));
    }
}

proof fn lemma_stmts_v(v: Seq<Stmt>)
    ensures
        stmts_v(v).len() == v.len(),
        forall|i: int| 0 <= i < v.len() ==> #[trigger] stmts_v(v)[i] == stmt_v(v[i]),
    decreases v.len(),
{
    if v.len() > 0 {
        lemma_stmts_v(v.subrange(0, v.len() - 1));
    }
}

/// The binding power and operator of an infix token.
pub open spec fn infix(t: STok) -> Option<(BinOp, u8)> {
    match t {
        STok::P(Sym::OrOr) => Some((BinOp::Or, 1u8)),
        STok::P(Sym::AndAnd) => Some((BinOp::And, 2u8)),
        STok::P(Sym::EqEq) => Some((BinOp::Eq, 3u8)),
        STok::P(Sym::Ne) => Some((BinOp::Ne, 3u8)),
        STok::P(Sym::Lt) => Some((BinOp::Lt, 4u8)),
        STok::P(Sym::Le) => Some((BinOp::Le, 4u8)),
        STok::P(Sym::Gt) => Some((BinOp::Gt, 4u8)),
        STok::P(Sym::Ge) => Some((BinOp::Ge, 4u8)),
        STok::P(Sym::Plus) => Some((BinOp::Add, 5u8)),
        STok::P(Sym::Minus) => Some((BinOp::Sub, 5u8)),
        STok::P(Sym::Star) => Some((BinOp::Mul, 6u8)),
        STok::P(Sym::Slash) => Some((BinOp::Div, 6u8)),
        STok::P(Sym::Percent) => Some((BinOp::Mod, 6u8)),
        _ => None,
    }
}

/// A token cursor.
pub struct Parser {
    pub t: Vec<Tok>,
    pub pos: usize,
}

/// Token `i` of `t` is the symbol `s`.
pub open spec fn sym_at(t: Seq<Tok>, i: int, s: Sym) -> bool {
    0 <= i < t.len() && t[i] == Tok::P(s)
}

/// A token is a symbol exactly when its value is that symbol, and a name
/// exactly when its value is a name.
proof fn lemma_tok_at(t: Seq<Tok>, i: int)
    requires
        0 <= i < t.len(),
    ensures
        forall|s: Sym| #![auto] (stok(t[i]) == STok::P(s)) == sym_at(t, i, s),
        (stok(t[i]) matches STok::Ident(_)) == (name_at(t, i) is Some),
        name_at(t, i) is Some ==> stok(t[i]) == STok::Ident(name_at(t, i)->0),
{
    match t[i] {
        Tok::P(p) => {},
        _ => {},
    }
}

/// The name at position `i`, if the token there is a name.
pub open spec fn name_at(t: Seq<Tok>, i: int) -> Option<Seq<char>> {
    if 0 <= i < t.len() {
        match t[i] {
            Tok::Ident(n) => Some(n@),
            _ => None,
        }
    } else {
        None
    }
}

/// `after` is `before` moved forward (never past the end), the tokens kept.
pub open spec fn advanced(before: Parser, after: Parser) -> bool {
    &&& after.t@ == before.t@
    &&& before.pos <= after.pos <= after.t@.len() <= usize::MAX
}

/// `after` is `before` moved forward by at least one token.
pub open spec fn consumed(before: Parser, after: Parser) -> bool {
    advanced(before, after) && before.pos < after.pos
}

impl Parser {
    /// The cursor is within the tokens.
    pub open spec fn wf(&self) -> bool {
        self.pos <= self.t@.len() <= usize::MAX
    }

    /// The token at the cursor, if any.
    pub open spec fn cur(&self) -> Option<STok> {
        if self.pos < self.t@.len() { Some(stok(self.t@[self.pos as int])) } else { None }
    }

    /// Whether there is a token at the cursor.
    pub fn more(&self) -> (r: bool)
        ensures
            r == (self.pos < self.t@.len()),
    {
        self.pos < self.t.len()
    }

    /// Whether the token at the cursor is the symbol `s`.
    pub fn at(&self, s: Sym) -> (r: bool)
        ensures
            r == (self.cur() == Some(STok::P(s))),
    {
        if self.pos < self.t.len() {
            match &self.t[self.pos] {
                Tok::P(p) => *p == s,
                _ => false,
            }
        } else {
            false
        }
    }

    /// Whether the token at cursor offset `k` is the symbol `s`.
    pub fn at_off(&self, k: usize, s: Sym) -> (r: bool)
        ensures
            r == (self.pos + k < self.t@.len() && stok(self.t@[self.pos + k]) == STok::P(s)),
    {
        if k < self.t.len() && self.pos < self.t.len() - k {
            match &self.t[self.pos + k] {
                Tok::P(p) => *p == s,
                _ => false,
            }
        } else {
            false
        }
    }

    /// Whether the token at the cursor is the name `kw`.
    pub fn at_kw(&self, kw: &str) -> (r: bool)
        ensures
            r == (self.cur() == Some(STok::Ident(kw@))),
    {
        if self.pos < self.t.len() {
            match &self.t[self.pos] {
                Tok::Ident(n) => crate::text::string_eq_str(n, kw),
                _ => false,
            }
        } else {
            false
        }
    }

    /// Take the token at the cursor.
    pub fn next(&mut self) -> (r: Option<Tok>)
        requires
            old(self).wf(),
        ensures
            final(self).t@ == old(self).t@,
            old(self).pos < old(self).t@.len() ==> final(self).pos == old(self).pos + 1
                && (r matches Some(t) && stok(t) == stok(old(self).t@[old(self).pos as int]))
                && r == Some(old(self).t@[old(self).pos as int]),
            old(self).pos >= old(self).t@.len() ==> final(self).pos == old(self).pos && r is None,
    {
        if self.pos < self.t.len() {
            let t = self.t[self.pos].copy();
            self.pos = self.pos + 1;
            Some(t)
        } else {
            None
        }
    }

    /// Step over the symbol `s` if it is at the cursor.
    pub fn eat(&mut self, s: Sym) -> (r: bool)
        requires
            old(self).wf(),
        ensures
            r == (old(self).cur() == Some(STok::P(s))),
            final(self).t@ == old(self).t@,
            final(self).pos == old(self).pos + (if r { 1int } else { 0int }),
    {
        if self.at(s) {
            self.pos = self.pos + 1;
            true
        } else {
            false
        }
    }

    /// Step over the symbol `s`, or fail with "diharapkan `what`".
    pub fn expect(&mut self, s: Sym, what: &str) -> (r: Result<(), String>)
        requires
            old(self).wf(),
        ensures
            r is Ok == (old(self).cur() == Some(STok::P(s))),
            r matches Err(e) ==> e@ == "diharapkan "@ + what@,
            final(self).t@ == old(self).t@,
            final(self).pos == old(self).pos + (if r is Ok { 1int } else { 0int }),
    {
        if self.eat(s) {
            Ok(())
        } else {
            let mut e = owned("diharapkan ");
            push_str(&mut e, what);
            Err(e)
        }
    }

    /// Step over newline tokens.
    pub fn skip_newlines(&mut self)
        requires
            old(self).wf(),
        ensures
            advanced(*old(self), *final(self)),
            final(self).cur() != Some(STok::P(Sym::Newline)),
            forall|k: int| old(self).pos <= k < final(self).pos ==> sym_at(old(self).t@, k, Sym::Newline),
            final(self).pos == skip_nl(stoks(old(self).t@), old(self).pos as int),
    {
        while self.at(Sym::Newline)
            invariant
                advanced(*old(self), *self),
                skip_nl(stoks(old(self).t@), old(self).pos as int) == skip_nl(stoks(self.t@), self.pos as int),
                forall|k: int| old(self).pos <= k < self.pos ==> sym_at(old(self).t@, k, Sym::Newline),
            decreases self.t@.len() - self.pos,
        {
            proof { lemma_tok_at(self.t@, self.pos as int); }
            self.pos = self.pos + 1;
        }
    }

    /// Expression by precedence climbing: operators binding at least as
    /// tightly as `min_bp` (see [`infix`]), left-associative (see
    /// [`expr_g`]).
    pub fn expr(&mut self, min_bp: u8) -> (r: Result<Expr, String>)
        requires
            old(self).wf(),
        ensures
            advanced(*old(self), *final(self)),
            r is Ok ==> consumed(*old(self), *final(self)),
            expr_res(r) == expr_g(stoks(old(self).t@), old(self).pos as int, min_bp as int).0,
            r is Ok ==> final(self).pos == expr_g(stoks(old(self).t@), old(self).pos as int, min_bp as int).1,
        decreases old(self).t@.len() - old(self).pos, 2int,
    {
        let ghost t = stoks(self.t@);
        let ghost i0 = self.pos as int;
        let mut lhs = self.unary()?;
        loop
            invariant
                consumed(*old(self), *self),
                t == stoks(self.t@),
                i0 == old(self).pos,
                expr_g(t, i0, min_bp as int) == expr_rest_g(t, self.pos as int, min_bp as int, expr_v(lhs)),
            ensures
                consumed(*old(self), *self),
                expr_g(t, i0, min_bp as int) == (Ok::<SExpr, Seq<char>>(expr_v(lhs)), self.pos as int),
            decreases self.t@.len() - self.pos,
        {
            if self.pos >= self.t.len() {
                break;
            }
            proof { assert(t[self.pos as int] == stok(self.t@[self.pos as int])); }
            let (op, bp): (BinOp, u8) = match &self.t[self.pos] {
                Tok::P(Sym::OrOr) => (BinOp::Or, 1),
                Tok::P(Sym::AndAnd) => (BinOp::And, 2),
                Tok::P(Sym::EqEq) => (BinOp::Eq, 3),
                Tok::P(Sym::Ne) => (BinOp::Ne, 3),
                Tok::P(Sym::Lt) => (BinOp::Lt, 4),
                Tok::P(Sym::Le) => (BinOp::Le, 4),
                Tok::P(Sym::Gt) => (BinOp::Gt, 4),
                Tok::P(Sym::Ge) => (BinOp::Ge, 4),
                Tok::P(Sym::Plus) => (BinOp::Add, 5),
                Tok::P(Sym::Minus) => (BinOp::Sub, 5),
                Tok::P(Sym::Star) => (BinOp::Mul, 6),
                Tok::P(Sym::Slash) => (BinOp::Div, 6),
                Tok::P(Sym::Percent) => (BinOp::Mod, 6),
                _ => {
                    break;
                },
            };
            if bp < min_bp {
                break;
            }
            self.pos = self.pos + 1;
            let rhs = self.expr(bp + 1)?;
            lhs = Expr::Bin(op, Box::new(lhs), Box::new(rhs));
        }
        Ok(lhs)
    }

    /// A prefix `-` or `!`, or an atom (see [`unary_g`]).
    pub fn unary(&mut self) -> (r: Result<Expr, String>)
        requires
            old(self).wf(),
        ensures
            advanced(*old(self), *final(self)),
            r is Ok ==> consumed(*old(self), *final(self)),
            expr_res(r) == unary_g(stoks(old(self).t@), old(self).pos as int).0,
            r is Ok ==> final(self).pos == unary_g(stoks(old(self).t@), old(self).pos as int).1,
        decreases old(self).t@.len() - old(self).pos, 1int,
    {
        if self.at(Sym::Minus) {
            self.pos = self.pos + 1;
            let e = self.unary()?;
            Ok(Expr::Neg(Box::new(e)))
        } else if self.at(Sym::Bang) {
            self.pos = self.pos + 1;
            let e = self.unary()?;
            Ok(Expr::Not(Box::new(e)))
        } else {
            self.atom()
        }
    }

    /// A literal, a parenthesized expression, a (dotted) name, or a call
    /// (see [`atom_g`]).
    #[verifier::rlimit(40)]
    pub fn atom(&mut self) -> (r: Result<Expr, String>)
        requires
            old(self).wf(),
        ensures
            advanced(*old(self), *final(self)),
            r is Ok ==> consumed(*old(self), *final(self)),
            expr_res(r) == atom_g(stoks(old(self).t@), old(self).pos as int).0,
            r is Ok ==> final(self).pos == atom_g(stoks(old(self).t@), old(self).pos as int).1,
        decreases old(self).t@.len() - old(self).pos, 0int,
    {
        let ghost t = stoks(self.t@);
        let ghost i = self.pos as int;
        proof {
            if i < t.len() {
                assert(t[i] == stok(self.t@[i]));
            }
        }
        let tk = self.next();
        match tk {
            Some(Tok::Int(n)) => Ok(Expr::Int(n)),
            Some(Tok::Str(s)) => Ok(Expr::Str(s)),
            Some(Tok::Bool(b)) => Ok(Expr::Bool(b)),
            Some(Tok::Nil) => Ok(Expr::Nil),
            Some(Tok::P(Sym::LParen)) => {
                let e = self.expr(0)?;
                self.expect(Sym::RParen, "')'")?;
                Ok(e)
            },
            Some(Tok::Ident(name)) => {
                let mut name = name;
                let ghost n0 = name@;
                while self.at(Sym::Dot)
                    invariant
                        consumed(*old(self), *self),
                        t == stoks(self.t@),
                        i == old(self).pos,
                        i < t.len() && t[i] == STok::Ident(n0),
                        dots_g(t, i + 1, n0) == dots_g(t, self.pos as int, name@),
                    decreases self.t@.len() - self.pos,
                {
                    proof {
                        assert(t[self.pos as int] == stok(self.t@[self.pos as int]));
                    }
                    self.pos = self.pos + 1;
                    proof {
                        if self.pos < t.len() {
                            assert(t[self.pos as int] == stok(self.t@[self.pos as int]));
                        }
                    }
                    let ghost nb = name@;
                    match self.next() {
                        Some(Tok::Ident(part)) => {
                            string_push(&mut name, '.');
                            push_str(&mut name, part.as_str());
                            assert(name@ =~= nb + seq!['.'] + part@);
                        },
                        _ => {
                            return Err(owned("nama setelah '.' tak valid"));
                        },
                    }
                }
                proof {
                    if self.pos < t.len() {
                        assert(t[self.pos as int] == stok(self.t@[self.pos as int]));
                    }
                    if self.pos + 1 < t.len() {
                        assert(t[self.pos + 1] == stok(self.t@[self.pos + 1]));
                    }
                }
                let ghost dn = name@;
                if self.eat(Sym::LParen) {
                    let ghost j = self.pos - 1;
                    let mut args: Vec<Expr> = Vec::new();
                    assert(exprs_v(args@) =~= Seq::<SExpr>::empty());
                    if !self.at(Sym::RParen) {
                        loop
                            invariant_except_break
                                args_g(t, j + 1, Seq::empty()) == args_g(t, self.pos as int, exprs_v(args@)),
                            invariant
                                consumed(*old(self), *self),
                                t == stoks(self.t@),
                                i == old(self).pos,
                                j + 1 <= self.pos,
                                i + 1 <= j,
                                i < t.len() && t[i] == STok::Ident(n0),
                                dots_g(t, i + 1, n0) == (Ok::<Seq<char>, Seq<char>>(dn), j),
                                sym_is(t, j, Sym::LParen) && !sym_is(t, j + 1, Sym::RParen),
                                name@ == dn,
                            ensures
                                consumed(*old(self), *self),
                                args_g(t, j + 1, Seq::empty()) == (Ok::<Seq<SExpr>, Seq<char>>(exprs_v(args@)), self.pos as int),
                            decreases self.t@.len() - self.pos,
                        {
                            let a = self.expr(0)?;
                            let ghost before = args@;
                            args.push(a);
                            proof { lemma_exprs_push(before, a); }
                            if !self.eat(Sym::Comma) {
                                break;
                            }
                        }
                    } else {
                        assert(exprs_v(args@) =~= Seq::<SExpr>::empty());
                    }
                    self.expect(Sym::RParen, "')'")?;
                    Ok(Expr::Call(name, args))
                } else {
                    Ok(Expr::Var(name))
                }
            },
            other => {
                let mut e = owned("token tak terduga di ekspresi: ");
                let n = match other {
                    None => "<akhir>",
                    Some(Tok::P(Sym::Newline)) => "<newline>",
                    Some(Tok::P(Sym::Indent)) => "<indent>",
                    Some(Tok::P(Sym::Dedent)) => "<dedent>",
                    _ => "<token>",
                };
                push_str(&mut e, n);
                Err(e)
            },
        }
    }

    /// A name token, or "diharapkan nama".
    pub fn ident_name(&mut self) -> (r: Result<String, String>)
        requires
            old(self).wf(),
        ensures
            advanced(*old(self), *final(self)),
            r is Ok ==> consumed(*old(self), *final(self)),
            r matches Ok(n) ==> name_is(stoks(old(self).t@), old(self).pos as int) == Some(n@),
            r is Ok <==> name_is(stoks(old(self).t@), old(self).pos as int) is Some,
            r matches Err(e) ==> e@ == "diharapkan nama"@,
            r is Ok ==> final(self).pos == old(self).pos + 1,
    {
        proof {
            if self.pos < self.t@.len() {
                assert(stoks(self.t@)[self.pos as int] == stok(self.t@[self.pos as int]));
            }
        }
        match self.next() {
            Some(Tok::Ident(s)) => Ok(s),
            _ => Err(owned("diharapkan nama")),
        }
    }

    /// `(a, b, ...)`: a parameter list (see [`params_g`]).
    pub fn params(&mut self) -> (r: Result<Vec<String>, String>)
        requires
            old(self).wf(),
        ensures
            advanced(*old(self), *final(self)),
            r is Ok ==> consumed(*old(self), *final(self)),
            names_res(r) == params_g(stoks(old(self).t@), old(self).pos as int).0,
            r is Ok ==> final(self).pos == params_g(stoks(old(self).t@), old(self).pos as int).1,
    {
        let ghost t = stoks(self.t@);
        let ghost i = self.pos as int;
        match self.expect(Sym::LParen, "'('") {
            Ok(()) => {},
            Err(e) => {
                return Err(e);
            },
        }
        let mut out: Vec<String> = Vec::new();
        assert(names_v(out@) =~= Seq::<Seq<char>>::empty());
        proof {
            assert(t[i] == stok(self.t@[i]));
            if self.pos < t.len() {
                assert(t[self.pos as int] == stok(self.t@[self.pos as int]));
            }
        }
        if !self.at(Sym::RParen) {
            loop
                invariant_except_break
                    params_g(t, i) == names_g(t, self.pos as int, names_v(out@)),
                invariant
                    consumed(*old(self), *self),
                    t == stoks(self.t@),
                    i == old(self).pos,
                ensures
                    consumed(*old(self), *self),
                    params_g(t, i) == (if sym_is(t, self.pos as int, Sym::RParen) {
                        (Ok::<Seq<Seq<char>>, Seq<char>>(names_v(out@)), self.pos + 1)
                    } else {
                        (Err::<Seq<Seq<char>>, Seq<char>>(expected("')'"@)), self.pos as int)
                    }),
                decreases self.t@.len() - self.pos,
            {
                let n = self.ident_name()?;
                let ghost before = out@;
                out.push(n);
                assert(names_v(out@) =~= names_v(before).push(n@));
                if !self.eat(Sym::Comma) {
                    break;
                }
            }
        } else {
            assert(names_v(out@) =~= Seq::<Seq<char>>::empty());
        }
        self.expect(Sym::RParen, "')'")?;
        Ok(out)
    }
}

/// An expression outcome, as the semantics sees it.
pub open spec fn expr_res(r: Result<Expr, String>) -> Result<SExpr, Seq<char>> {
    match r {
        Ok(e) => Ok(expr_v(e)),
        Err(m) => Err(m@),
    }
}

/// A statement outcome, as the semantics sees it.
pub open spec fn stmt_res(r: Result<Stmt, String>) -> Result<SStmt, Seq<char>> {
    match r {
        Ok(s) => Ok(stmt_v(s)),
        Err(m) => Err(m@),
    }
}

/// A statement-list outcome, as the semantics sees it.
pub open spec fn stmts_res(r: Result<Vec<Stmt>, String>) -> Result<Seq<SStmt>, Seq<char>> {
    match r {
        Ok(v) => Ok(stmts_v(v@)),
        Err(m) => Err(m@),
    }
}

/// Names, as character sequences.
pub open spec fn names_v(v: Seq<String>) -> Seq<Seq<char>> {
    v.map_values(|s: String| s@)
}

/// A name-list outcome, as the semantics sees it.
pub open spec fn names_res(r: Result<Vec<String>, String>) -> Result<Seq<Seq<char>>, Seq<char>> {
    match r {
        Ok(v) => Ok(names_v(v@)),
        Err(m) => Err(m@),
    }
}

proof fn lemma_exprs_push(v: Seq<Expr>, e: Expr)
    ensures
        exprs_v(v.push(e)) == exprs_v(v).push(expr_v(e)),
{
    assert(v.push(e).subrange(0, v.len() as int) =~= v);
}

proof fn lemma_stmts_push(v: Seq<Stmt>, s: Stmt)
    ensures
        stmts_v(v.push(s)) == stmts_v(v).push(stmt_v(s)),
{
    assert(v.push(s).subrange(0, v.len() as int) =~= v);
}

/// A braced JavaScript block (see [`js_block_g`]).
fn js_block(p: &mut Parser) -> (r: Result<Vec<Stmt>, String>)
    requires
        old(p).wf(),
    ensures
        advanced(*old(p), *final(p)),
        r is Ok ==> consumed(*old(p), *final(p)),
        stmts_res(r) == js_block_g(stoks(old(p).t@), old(p).pos as int).0,
        r is Ok ==> final(p).pos == js_block_g(stoks(old(p).t@), old(p).pos as int).1,
    decreases old(p).t@.len() - old(p).pos, 1int,
{
    let ghost t = stoks(p.t@);
    let ghost i = p.pos as int;
    match p.expect(Sym::LBrace, "'{'") {
        Ok(()) => {},
        Err(e) => {
            return Err(e);
        },
    }
    let mut out: Vec<Stmt> = Vec::new();
    assert(stmts_v(out@) =~= Seq::<SStmt>::empty());
    while p.more() && !p.at(Sym::RBrace)
        invariant
            consumed(*old(p), *p),
            t == stoks(p.t@),
            i == old(p).pos,
            js_block_g(t, i) == js_items_g(t, p.pos as int, stmts_v(out@)),
        decreases p.t@.len() - p.pos,
    {
        let st = js_stmt(p)?;
        let ghost before = out@;
        out.push(st);
        proof { lemma_stmts_push(before, st); }
    }
    match p.expect(Sym::RBrace, "'}'") {
        Ok(()) => {},
        Err(e) => {
            return Err(e);
        },
    }
    Ok(out)
}

/// One JavaScript statement: `function`, `if`/`else`, `while`, C-style
/// `for`, `return`, or a simple statement with an optional `;` (see
/// [`js_stmt_g`]).
#[verifier::rlimit(60)]
fn js_stmt(p: &mut Parser) -> (r: Result<Stmt, String>)
    requires
        old(p).wf(),
    ensures
        advanced(*old(p), *final(p)),
        r is Ok ==> consumed(*old(p), *final(p)),
        stmt_res(r) == js_stmt_g(stoks(old(p).t@), old(p).pos as int).0,
        r is Ok ==> final(p).pos == js_stmt_g(stoks(old(p).t@), old(p).pos as int).1,
    decreases old(p).t@.len() - old(p).pos, 2int,
{
    if p.at_kw("function") {
        p.pos = p.pos + 1;
        let name = p.ident_name()?;
        let params = p.params()?;
        let body = js_block(p)?;
        return Ok(Stmt::Func(name, params, Rc::new(body)));
    }
    if p.at_kw("if") {
        p.pos = p.pos + 1;
        p.expect(Sym::LParen, "'('")?;
        let cond = p.expr(0)?;
        p.expect(Sym::RParen, "')'")?;
        let then = js_block(p)?;
        let els = if p.at_kw("else") {
            p.pos = p.pos + 1;
            if p.at_kw("if") {
                let st = js_stmt(p)?;
                let v = vec![st];
                proof { lemma_stmts_push(Seq::<Stmt>::empty(), st); assert(v@ =~= Seq::<Stmt>::empty().push(st)); }
                v
            } else {
                js_block(p)?
            }
        } else {
            let v: Vec<Stmt> = Vec::new();
            assert(stmts_v(v@) =~= Seq::<SStmt>::empty());
            v
        };
        return Ok(Stmt::If(cond, then, els));
    }
    if p.at_kw("while") {
        p.pos = p.pos + 1;
        p.expect(Sym::LParen, "'('")?;
        let cond = p.expr(0)?;
        p.expect(Sym::RParen, "')'")?;
        let body = js_block(p)?;
        return Ok(Stmt::While(cond, body));
    }
    if p.at_kw("for") {
        p.pos = p.pos + 1;
        p.expect(Sym::LParen, "'('")?;
        let init = js_simple(p)?;
        p.expect(Sym::Semi, "';'")?;
        let cond = p.expr(0)?;
        p.expect(Sym::Semi, "';'")?;
        let incr = js_simple(p)?;
        p.expect(Sym::RParen, "')'")?;
        let body = js_block(p)?;
        return Ok(Stmt::ForC(Box::new(init), cond, Box::new(incr), body));
    }
    if p.at_kw("return") {
        p.pos = p.pos + 1;
        let e = if p.at(Sym::Semi) { None } else { Some(p.expr(0)?) };
        p.eat(Sym::Semi);
        return Ok(Stmt::Return(e));
    }
    let st = js_simple(p)?;
    p.eat(Sym::Semi);
    Ok(st)
}

/// A declaration (`let`/`var`/`const` name `=` expr), an assignment, or an
/// expression statement (see [`js_simple_g`]).
fn js_simple(p: &mut Parser) -> (r: Result<Stmt, String>)
    requires
        old(p).wf(),
    ensures
        advanced(*old(p), *final(p)),
        r is Ok ==> consumed(*old(p), *final(p)),
        stmt_res(r) == js_simple_g(stoks(old(p).t@), old(p).pos as int).0,
        r is Ok ==> final(p).pos == js_simple_g(stoks(old(p).t@), old(p).pos as int).1,
{
    if p.at_kw("let") || p.at_kw("var") || p.at_kw("const") {
        p.pos = p.pos + 1;
        let name = p.ident_name()?;
        p.expect(Sym::Assign, "'='")?;
        let e = p.expr(0)?;
        return Ok(Stmt::Assign(name, e));
    }
    assign_or_expr(p)
}

/// `name = expr`, or an expression statement (see [`assign_or_expr_g`]).
fn assign_or_expr(p: &mut Parser) -> (r: Result<Stmt, String>)
    requires
        old(p).wf(),
    ensures
        advanced(*old(p), *final(p)),
        r is Ok ==> consumed(*old(p), *final(p)),
        stmt_res(r) == assign_or_expr_g(stoks(old(p).t@), old(p).pos as int).0,
        r is Ok ==> final(p).pos == assign_or_expr_g(stoks(old(p).t@), old(p).pos as int).1,
{
    let ghost t = stoks(p.t@);
    proof {
        if p.pos < t.len() {
            assert(t[p.pos as int] == stok(p.t@[p.pos as int]));
        }
    }
    if p.pos < p.t.len() && p.at_off(1, Sym::Assign) {
        proof { assert(t[p.pos + 1] == stok(p.t@[p.pos + 1])); }
        let name = match &p.t[p.pos] {
            Tok::Ident(n) => Some(n.clone()),
            _ => None,
        };
        if let Some(name) = name {
            p.pos = p.pos + 2;
            let e = p.expr(0)?;
            return Ok(Stmt::Assign(name, e));
        }
    }
    let e = p.expr(0)?;
    Ok(Stmt::ExprStmt(e))
}

/// Parse a JavaScript token list into statements (see [`js_program`]).
pub fn parse_js(toks: Vec<Tok>) -> (r: Result<Vec<Stmt>, String>)
    ensures
        stmts_res(r) == js_program(stoks(toks@)),
{
    let ghost t = stoks(toks@);
    let mut p = Parser { t: toks, pos: 0 };
    let _n = p.t.len();
    let mut out: Vec<Stmt> = Vec::new();
    assert(stmts_v(out@) =~= Seq::<SStmt>::empty());
    while p.more()
        invariant
            p.wf(),
            t == stoks(p.t@),
            js_program(t) == js_prog_g(t, p.pos as int, stmts_v(out@)).0,
            t == stoks(toks@),
        decreases p.t@.len() - p.pos,
    {
        let ghost pos0 = p.pos as int;
        let st = match js_stmt(&mut p) {
            Ok(s) => s,
            Err(e) => {
                proof {
                    assert(t[pos0] == stok(p.t@[pos0]));
                    assert(js_prog_g(t, pos0, stmts_v(out@)).0 == Err::<Seq<SStmt>, Seq<char>>(e@));
                }
                return Err(e);
            },
        };
        let ghost before = out@;
        out.push(st);
        proof { lemma_stmts_push(before, st); }
    }
    Ok(out)
}

/// A Python suite: `:` newline indent statements dedent (see
/// [`py_suite_g`]).
fn py_suite(p: &mut Parser) -> (r: Result<Vec<Stmt>, String>)
    requires
        old(p).wf(),
    ensures
        advanced(*old(p), *final(p)),
        r is Ok ==> consumed(*old(p), *final(p)),
        stmts_res(r) == py_suite_g(stoks(old(p).t@), old(p).pos as int).0,
        r is Ok ==> final(p).pos == py_suite_g(stoks(old(p).t@), old(p).pos as int).1,
    decreases old(p).t@.len() - old(p).pos, 1int,
{
    let ghost t = stoks(p.t@);
    let ghost i = p.pos as int;
    match p.expect(Sym::Colon, "':'") {
        Ok(()) => {},
        Err(e) => {
            return Err(e);
        },
    }
    match p.expect(Sym::Newline, "newline") {
        Ok(()) => {},
        Err(e) => {
            return Err(e);
        },
    }
    match p.expect(Sym::Indent, "indent") {
        Ok(()) => {},
        Err(e) => {
            return Err(e);
        },
    }
    let mut out: Vec<Stmt> = Vec::new();
    assert(stmts_v(out@) =~= Seq::<SStmt>::empty());
    p.skip_newlines();
    while p.more() && !p.at(Sym::Dedent)
        invariant
            consumed(*old(p), *p),
            t == stoks(p.t@),
            i == old(p).pos,
            py_suite_g(t, i) == py_items_g(t, p.pos as int, stmts_v(out@)),
        decreases p.t@.len() - p.pos,
    {
        let st = py_stmt(p)?;
        let ghost before = out@;
        out.push(st);
        proof { lemma_stmts_push(before, st); }
        p.skip_newlines();
    }
    p.expect(Sym::Dedent, "dedent")?;
    Ok(out)
}

/// The rest of an `if` or `elif` after its keyword: condition, suite, and
/// the `elif` chain or `else` suite (see [`py_if_g`]).
fn py_if_rest(p: &mut Parser) -> (r: Result<Stmt, String>)
    requires
        old(p).wf(),
    ensures
        advanced(*old(p), *final(p)),
        r is Ok ==> consumed(*old(p), *final(p)),
        stmt_res(r) == py_if_g(stoks(old(p).t@), old(p).pos as int).0,
        r is Ok ==> final(p).pos == py_if_g(stoks(old(p).t@), old(p).pos as int).1,
    decreases old(p).t@.len() - old(p).pos, 0int,
{
    let cond = p.expr(0)?;
    let then = py_suite(p)?;
    let els = if p.at_kw("elif") {
        p.pos = p.pos + 1;
        let st = py_if_rest(p)?;
        let v = vec![st];
        proof { lemma_stmts_push(Seq::<Stmt>::empty(), st); assert(v@ =~= Seq::<Stmt>::empty().push(st)); }
        v
    } else if p.at_kw("else") {
        p.pos = p.pos + 1;
        py_suite(p)?
    } else {
        let v: Vec<Stmt> = Vec::new();
        assert(stmts_v(v@) =~= Seq::<SStmt>::empty());
        v
    };
    Ok(Stmt::If(cond, then, els))
}

/// One Python statement: `def`, `if`/`elif`/`else`, `while`,
/// `for .. in range(..)`, `return`, an assignment or an expression (see
/// [`py_stmt_g`]).
#[verifier::rlimit(60)]
fn py_stmt(p: &mut Parser) -> (r: Result<Stmt, String>)
    requires
        old(p).wf(),
    ensures
        advanced(*old(p), *final(p)),
        r is Ok ==> consumed(*old(p), *final(p)),
        stmt_res(r) == py_stmt_g(stoks(old(p).t@), old(p).pos as int).0,
        r is Ok ==> final(p).pos == py_stmt_g(stoks(old(p).t@), old(p).pos as int).1,
    decreases old(p).t@.len() - old(p).pos, 2int,
{
    if p.at_kw("def") {
        p.pos = p.pos + 1;
        let name = p.ident_name()?;
        let params = p.params()?;
        let body = py_suite(p)?;
        return Ok(Stmt::Func(name, params, Rc::new(body)));
    }
    if p.at_kw("if") {
        p.pos = p.pos + 1;
        return py_if_rest(p);
    }
    if p.at_kw("while") {
        p.pos = p.pos + 1;
        let cond = p.expr(0)?;
        let body = py_suite(p)?;
        return Ok(Stmt::While(cond, body));
    }
    if p.at_kw("for") {
        p.pos = p.pos + 1;
        let var = p.ident_name()?;
        if !p.at_kw("in") {
            return Err(owned("diharapkan 'in' pada for"));
        }
        p.pos = p.pos + 1;
        if !p.at_kw("range") {
            return Err(owned("hanya 'for x in range(...)' didukung"));
        }
        p.pos = p.pos + 1;
        p.expect(Sym::LParen, "'('")?;
        let first = p.expr(0)?;
        let (start, end) = if p.eat(Sym::Comma) {
            let second = p.expr(0)?;
            (first, second)
        } else {
            (Expr::Int(0), first)
        };
        p.expect(Sym::RParen, "')'")?;
        let body = py_suite(p)?;
        return Ok(Stmt::ForRange(var, start, end, body));
    }
    if p.at_kw("return") {
        p.pos = p.pos + 1;
        let e = if p.at(Sym::Newline) { None } else { Some(p.expr(0)?) };
        return Ok(Stmt::Return(e));
    }
    assign_or_expr(p)
}

/// Parse a Python token list into statements (see [`py_program`]).
pub fn parse_py(toks: Vec<Tok>) -> (r: Result<Vec<Stmt>, String>)
    ensures
        stmts_res(r) == py_program(stoks(toks@)),
{
    let ghost t = stoks(toks@);
    let mut p = Parser { t: toks, pos: 0 };
    let _n = p.t.len();
    let mut out: Vec<Stmt> = Vec::new();
    assert(stmts_v(out@) =~= Seq::<SStmt>::empty());
    p.skip_newlines();
    while p.more()
        invariant
            p.wf(),
            t == stoks(p.t@),
            py_program(t) == py_prog_g(t, p.pos as int, stmts_v(out@)).0,
            t == stoks(toks@),
        decreases p.t@.len() - p.pos,
    {
        let ghost pos0 = p.pos as int;
        let st = match py_stmt(&mut p) {
            Ok(s) => s,
            Err(e) => {
                proof {
                    assert(t[pos0] == stok(p.t@[pos0]));
                    assert(py_prog_g(t, pos0, stmts_v(out@)).0 == Err::<Seq<SStmt>, Seq<char>>(e@));
                }
                return Err(e);
            },
        };
        let ghost before = out@;
        out.push(st);
        proof { lemma_stmts_push(before, st); }
        p.skip_newlines();
    }
    Ok(out)
}

// ----------------------------------------------------------------------------
// The grammar, as the semantics sees it
//
// Each rule takes the tokens and a position and gives the result and the
// position after it (meaningful when the result is `Ok`).

/// Token `i` is the symbol `s`.
pub open spec fn sym_is(t: Seq<STok>, i: int, s: Sym) -> bool {
    0 <= i < t.len() && t[i] == STok::P(s)
}

/// The name at position `i`, if a name is there.
pub open spec fn name_is(t: Seq<STok>, i: int) -> Option<Seq<char>> {
    if 0 <= i < t.len() {
        match t[i] {
            STok::Ident(n) => Some(n),
            _ => None,
        }
    } else {
        None
    }
}

/// The message of a missing token.
pub open spec fn expected(what: Seq<char>) -> Seq<char> {
    "diharapkan "@ + what
}

/// The message of a token that cannot start an operand.
pub open spec fn unexpected(t: Seq<STok>, i: int) -> Seq<char> {
    "token tak terduga di ekspresi: "@ + (if i >= t.len() {
        "<akhir>"@
    } else if t[i] == STok::P(Sym::Newline) {
        "<newline>"@
    } else if t[i] == STok::P(Sym::Indent) {
        "<indent>"@
    } else if t[i] == STok::P(Sym::Dedent) {
        "<dedent>"@
    } else {
        "<token>"@
    })
}

/// The position after the newlines at `i`.
pub open spec fn skip_nl(t: Seq<STok>, i: int) -> int
    decreases t.len() - i,
{
    if sym_is(t, i, Sym::Newline) { skip_nl(t, i + 1) } else { i }
}

/// An expression at `i` whose operators bind at least as tightly as
/// `min_bp`: a prefix operand, then infix operators left to right.
pub open spec fn expr_g(t: Seq<STok>, i: int, min_bp: int) -> (Result<SExpr, Seq<char>>, int)
    decreases t.len() - i, 3int,
{
    let (r, j) = unary_g(t, i);
    match r {
        Err(m) => (Err(m), j),
        Ok(lhs) => if j < i || j > t.len() { (Err(Seq::empty()), j) } else { expr_rest_g(t, j, min_bp, lhs) },
    }
}

/// The infix operators after the operand `lhs`, from `j`.
pub open spec fn expr_rest_g(t: Seq<STok>, j: int, min_bp: int, lhs: SExpr) -> (Result<SExpr, Seq<char>>, int)
    decreases t.len() - j, 2int,
{
    if j < 0 || j >= t.len() {
        (Ok(lhs), j)
    } else {
        match infix(t[j]) {
            None => (Ok(lhs), j),
            Some((op, bp)) => if (bp as int) < min_bp {
                (Ok(lhs), j)
            } else {
                let (r, k) = expr_g(t, j + 1, bp + 1);
                match r {
                    Err(m) => (Err(m), k),
                    Ok(rhs) => if k <= j || k > t.len() {
                        (Err(Seq::empty()), k)
                    } else {
                        expr_rest_g(t, k, min_bp, SExpr::Bin(op, Box::new(lhs), Box::new(rhs)))
                    },
                }
            },
        }
    }
}

/// A prefix `-` or `!`, or an atom, at `i`.
pub open spec fn unary_g(t: Seq<STok>, i: int) -> (Result<SExpr, Seq<char>>, int)
    decreases t.len() - i, 1int,
{
    if sym_is(t, i, Sym::Minus) || sym_is(t, i, Sym::Bang) {
        let (r, j) = unary_g(t, i + 1);
        match r {
            Err(m) => (Err(m), j),
            Ok(e) => (Ok(if sym_is(t, i, Sym::Minus) { SExpr::Neg(Box::new(e)) } else { SExpr::Not(Box::new(e)) }), j),
        }
    } else {
        atom_g(t, i)
    }
}

/// A literal, a parenthesized expression, a dotted name, or a call, at `i`.
pub open spec fn atom_g(t: Seq<STok>, i: int) -> (Result<SExpr, Seq<char>>, int)
    decreases t.len() - i, 0int,
{
    if i < 0 || i >= t.len() {
        (Err(unexpected(t, i)), i)
    } else {
        match t[i] {
            STok::Int(n) => (Ok(SExpr::Int(n)), i + 1),
            STok::Str(s) => (Ok(SExpr::Str(s)), i + 1),
            STok::Bool(b) => (Ok(SExpr::Bool(b)), i + 1),
            STok::Nil => (Ok(SExpr::Nil), i + 1),
            STok::P(Sym::LParen) => {
                let (r, j) = expr_g(t, i + 1, 0);
                match r {
                    Err(m) => (Err(m), j),
                    Ok(e) => if sym_is(t, j, Sym::RParen) { (Ok(e), j + 1) } else { (Err(expected("')'"@)), j) },
                }
            },
            STok::Ident(n) => {
                let (rn, j) = dots_g(t, i + 1, n);
                match rn {
                    Err(m) => (Err(m), j),
                    Ok(name) => if j < i + 1 {
                        (Err(Seq::empty()), j)
                    } else if !sym_is(t, j, Sym::LParen) {
                        (Ok(SExpr::Var(name)), j)
                    } else if sym_is(t, j + 1, Sym::RParen) {
                        (Ok(SExpr::Call(name, Seq::empty())), j + 2)
                    } else {
                        let (ra, k) = args_g(t, j + 1, Seq::empty());
                        match ra {
                            Err(m) => (Err(m), k),
                            Ok(args) => if sym_is(t, k, Sym::RParen) {
                                (Ok(SExpr::Call(name, args)), k + 1)
                            } else {
                                (Err(expected("')'"@)), k)
                            },
                        }
                    },
                }
            },
            _ => (Err(unexpected(t, i)), i + 1),
        }
    }
}

/// The `.name` parts after a name, joined to it with dots.
pub open spec fn dots_g(t: Seq<STok>, i: int, name: Seq<char>) -> (Result<Seq<char>, Seq<char>>, int)
    decreases t.len() - i, 0int,
{
    if sym_is(t, i, Sym::Dot) {
        match name_is(t, i + 1) {
            Some(part) => dots_g(t, i + 2, name + seq!['.'] + part),
            None => (Err("nama setelah '.' tak valid"@), i + 1),
        }
    } else {
        (Ok(name), i)
    }
}

/// Call arguments from `k`, separated by commas, after those in `acc`.
pub open spec fn args_g(t: Seq<STok>, k: int, acc: Seq<SExpr>) -> (Result<Seq<SExpr>, Seq<char>>, int)
    decreases t.len() - k, 4int,
{
    let (r, k2) = expr_g(t, k, 0);
    match r {
        Err(m) => (Err(m), k2),
        Ok(a) => if k2 <= k {
            (Err(Seq::empty()), k2)
        } else if sym_is(t, k2, Sym::Comma) {
            args_g(t, k2 + 1, acc.push(a))
        } else {
            (Ok(acc.push(a)), k2)
        },
    }
}

/// `(a, b, ...)`: a parameter list at `i`.
pub open spec fn params_g(t: Seq<STok>, i: int) -> (Result<Seq<Seq<char>>, Seq<char>>, int) {
    if !sym_is(t, i, Sym::LParen) {
        (Err(expected("'('"@)), i)
    } else if sym_is(t, i + 1, Sym::RParen) {
        (Ok(Seq::empty()), i + 2)
    } else {
        names_g(t, i + 1, Seq::empty())
    }
}

/// Parameter names from `k`, separated by commas, then `)`.
pub open spec fn names_g(t: Seq<STok>, k: int, acc: Seq<Seq<char>>) -> (Result<Seq<Seq<char>>, Seq<char>>, int)
    decreases t.len() - k,
{
    match name_is(t, k) {
        None => (Err("diharapkan nama"@), k),
        Some(n) => if sym_is(t, k + 1, Sym::Comma) {
            names_g(t, k + 2, acc.push(n))
        } else if sym_is(t, k + 1, Sym::RParen) {
            (Ok(acc.push(n)), k + 2)
        } else {
            (Err(expected("')'"@)), k + 1)
        },
    }
}

/// `name = expr` at `i`, or an expression statement.
pub open spec fn assign_or_expr_g(t: Seq<STok>, i: int) -> (Result<SStmt, Seq<char>>, int)
    decreases t.len() - i, 4int,
{
    if name_is(t, i) is Some && sym_is(t, i + 1, Sym::Assign) {
        let (r, j) = expr_g(t, i + 2, 0);
        match r {
            Err(m) => (Err(m), j),
            Ok(e) => (Ok(SStmt::Assign(name_is(t, i)->0, e)), j),
        }
    } else {
        let (r, j) = expr_g(t, i, 0);
        match r {
            Err(m) => (Err(m), j),
            Ok(e) => (Ok(SStmt::ExprStmt(e)), j),
        }
    }
}

/// A declaration (`let`/`var`/`const` name `=` expr) at `i`, an assignment,
/// or an expression statement.
pub open spec fn js_simple_g(t: Seq<STok>, i: int) -> (Result<SStmt, Seq<char>>, int)
    decreases t.len() - i, 5int,
{
    if name_is(t, i) == Some("let"@) || name_is(t, i) == Some("var"@) || name_is(t, i) == Some("const"@) {
        match name_is(t, i + 1) {
            None => (Err("diharapkan nama"@), i + 1),
            Some(n) => if !sym_is(t, i + 2, Sym::Assign) {
                (Err(expected("'='"@)), i + 2)
            } else {
                let (r, j) = expr_g(t, i + 3, 0);
                match r {
                    Err(m) => (Err(m), j),
                    Ok(e) => (Ok(SStmt::Assign(n, e)), j),
                }
            },
        }
    } else {
        assign_or_expr_g(t, i)
    }
}

/// A braced JavaScript block at `i`.
pub open spec fn js_block_g(t: Seq<STok>, i: int) -> (Result<Seq<SStmt>, Seq<char>>, int)
    decreases t.len() - i, 0int,
{
    if !sym_is(t, i, Sym::LBrace) {
        (Err(expected("'{'"@)), i)
    } else {
        js_items_g(t, i + 1, Seq::empty())
    }
}

/// The statements of a block from `k` up to its `}`, after those in `acc`.
pub open spec fn js_items_g(t: Seq<STok>, k: int, acc: Seq<SStmt>) -> (Result<Seq<SStmt>, Seq<char>>, int)
    decreases t.len() - k, 7int,
{
    if 0 <= k < t.len() && !sym_is(t, k, Sym::RBrace) {
        let (r, k2) = js_stmt_g(t, k);
        match r {
            Err(m) => (Err(m), k2),
            Ok(s) => if k2 <= k || k2 > t.len() { (Err(Seq::empty()), k2) } else { js_items_g(t, k2, acc.push(s)) },
        }
    } else if sym_is(t, k, Sym::RBrace) {
        (Ok(acc), k + 1)
    } else {
        (Err(expected("'}'"@)), k)
    }
}

/// `k` moved past a `;` there.
pub open spec fn skip_semi(t: Seq<STok>, k: int) -> int {
    if sym_is(t, k, Sym::Semi) { k + 1 } else { k }
}

/// One JavaScript statement at `i`: `function`, `if`/`else`, `while`,
/// C-style `for`, `return`, or a simple statement, each with an optional
/// `;` where the grammar allows one.
pub open spec fn js_stmt_g(t: Seq<STok>, i: int) -> (Result<SStmt, Seq<char>>, int)
    decreases t.len() - i, 6int,
{
    let kw = name_is(t, i);
    if kw == Some("function"@) {
        match name_is(t, i + 1) {
            None => (Err("diharapkan nama"@), i + 1),
            Some(n) => {
                let (rp, j) = params_g(t, i + 2);
                match rp {
                    Err(m) => (Err(m), j),
                    Ok(ps) => if j <= i || j > t.len() {
                        (Err(Seq::empty()), j)
                    } else {
                        let (rb, k) = js_block_g(t, j);
                        match rb {
                            Err(m) => (Err(m), k),
                            Ok(b) => (Ok(SStmt::Func(n, ps, b)), k),
                        }
                    },
                }
            },
        }
    } else if kw == Some("if"@) {
        if !sym_is(t, i + 1, Sym::LParen) {
            (Err(expected("'('"@)), i + 1)
        } else {
            let (rc, j) = expr_g(t, i + 2, 0);
            match rc {
                Err(m) => (Err(m), j),
                Ok(c) => if j <= i || j > t.len() || !sym_is(t, j, Sym::RParen) {
                    (Err(expected("')'"@)), j)
                } else {
                    let (rt, k) = js_block_g(t, j + 1);
                    match rt {
                        Err(m) => (Err(m), k),
                        Ok(th) => if k <= i || k > t.len() {
                            (Err(Seq::empty()), k)
                        } else if name_is(t, k) != Some("else"@) {
                            (Ok(SStmt::If(c, th, Seq::empty())), k)
                        } else if name_is(t, k + 1) == Some("if"@) {
                            let (re, m2) = js_stmt_g(t, k + 1);
                            match re {
                                Err(m) => (Err(m), m2),
                                Ok(st) => (Ok(SStmt::If(c, th, seq![st])), m2),
                            }
                        } else {
                            let (re, m2) = js_block_g(t, k + 1);
                            match re {
                                Err(m) => (Err(m), m2),
                                Ok(el) => (Ok(SStmt::If(c, th, el)), m2),
                            }
                        },
                    }
                },
            }
        }
    } else if kw == Some("while"@) {
        if !sym_is(t, i + 1, Sym::LParen) {
            (Err(expected("'('"@)), i + 1)
        } else {
            let (rc, j) = expr_g(t, i + 2, 0);
            match rc {
                Err(m) => (Err(m), j),
                Ok(c) => if j <= i || j > t.len() || !sym_is(t, j, Sym::RParen) {
                    (Err(expected("')'"@)), j)
                } else {
                    let (rb, k) = js_block_g(t, j + 1);
                    match rb {
                        Err(m) => (Err(m), k),
                        Ok(b) => (Ok(SStmt::While(c, b)), k),
                    }
                },
            }
        }
    } else if kw == Some("for"@) {
        if !sym_is(t, i + 1, Sym::LParen) {
            (Err(expected("'('"@)), i + 1)
        } else {
            let (ri, j) = js_simple_g(t, i + 2);
            match ri {
                Err(m) => (Err(m), j),
                Ok(init) => if j <= i || j > t.len() || !sym_is(t, j, Sym::Semi) {
                    (Err(expected("';'"@)), j)
                } else {
                    let (rc, k) = expr_g(t, j + 1, 0);
                    match rc {
                        Err(m) => (Err(m), k),
                        Ok(c) => if k <= i || k > t.len() || !sym_is(t, k, Sym::Semi) {
                            (Err(expected("';'"@)), k)
                        } else {
                            let (rn, l) = js_simple_g(t, k + 1);
                            match rn {
                                Err(m) => (Err(m), l),
                                Ok(incr) => if l <= i || l > t.len() || !sym_is(t, l, Sym::RParen) {
                                    (Err(expected("')'"@)), l)
                                } else {
                                    let (rb, q) = js_block_g(t, l + 1);
                                    match rb {
                                        Err(m) => (Err(m), q),
                                        Ok(b) => (Ok(SStmt::ForC(Box::new(init), c, Box::new(incr), b)), q),
                                    }
                                },
                            }
                        },
                    }
                },
            }
        }
    } else if kw == Some("return"@) {
        if sym_is(t, i + 1, Sym::Semi) {
            (Ok(SStmt::Return(None)), i + 2)
        } else {
            let (r, j) = expr_g(t, i + 1, 0);
            match r {
                Err(m) => (Err(m), j),
                Ok(e) => (Ok(SStmt::Return(Some(e))), skip_semi(t, j)),
            }
        }
    } else {
        let (r, j) = js_simple_g(t, i);
        match r {
            Err(m) => (Err(m), j),
            Ok(s) => (Ok(s), skip_semi(t, j)),
        }
    }
}

/// JavaScript statements from `i` to the end, after those in `acc`.
pub open spec fn js_prog_g(t: Seq<STok>, i: int, acc: Seq<SStmt>) -> (Result<Seq<SStmt>, Seq<char>>, int)
    decreases t.len() - i,
{
    if i < 0 || i >= t.len() {
        (Ok(acc), i)
    } else {
        let (r, j) = js_stmt_g(t, i);
        match r {
            Err(m) => (Err(m), j),
            Ok(s) => if j <= i || j > t.len() { (Err(Seq::empty()), j) } else { js_prog_g(t, j, acc.push(s)) },
        }
    }
}

/// A JavaScript program.
pub open spec fn js_program(t: Seq<STok>) -> Result<Seq<SStmt>, Seq<char>> {
    js_prog_g(t, 0, Seq::empty()).0
}

/// A Python suite at `i`: `:` newline indent statements dedent.
pub open spec fn py_suite_g(t: Seq<STok>, i: int) -> (Result<Seq<SStmt>, Seq<char>>, int)
    decreases t.len() - i, 0int,
{
    if !sym_is(t, i, Sym::Colon) {
        (Err(expected("':'"@)), i)
    } else if !sym_is(t, i + 1, Sym::Newline) {
        (Err(expected("newline"@)), i + 1)
    } else if !sym_is(t, i + 2, Sym::Indent) {
        (Err(expected("indent"@)), i + 2)
    } else {
        let k = skip_nl(t, i + 3);
        if k <= i || k > t.len() { (Err(Seq::empty()), k) } else { py_items_g(t, k, Seq::empty()) }
    }
}

/// The statements of a suite from `k` up to its dedent, after those in
/// `acc`; newlines between them are skipped.
pub open spec fn py_items_g(t: Seq<STok>, k: int, acc: Seq<SStmt>) -> (Result<Seq<SStmt>, Seq<char>>, int)
    decreases t.len() - k, 7int,
{
    if 0 <= k < t.len() && !sym_is(t, k, Sym::Dedent) {
        let (r, k2) = py_stmt_g(t, k);
        match r {
            Err(m) => (Err(m), k2),
            Ok(s) => {
                let k3 = skip_nl(t, k2);
                if k3 <= k || k3 > t.len() { (Err(Seq::empty()), k3) } else { py_items_g(t, k3, acc.push(s)) }
            },
        }
    } else if sym_is(t, k, Sym::Dedent) {
        (Ok(acc), k + 1)
    } else {
        (Err(expected("dedent"@)), k)
    }
}

/// The rest of an `if`/`elif` at `i`, after its keyword: condition, suite,
/// and the `elif` chain or `else` suite.
pub open spec fn py_if_g(t: Seq<STok>, i: int) -> (Result<SStmt, Seq<char>>, int)
    decreases t.len() - i, 5int,
{
    let (rc, j) = expr_g(t, i, 0);
    match rc {
        Err(m) => (Err(m), j),
        Ok(c) => if j <= i || j > t.len() {
            (Err(Seq::empty()), j)
        } else {
            let (rt, k) = py_suite_g(t, j);
            match rt {
                Err(m) => (Err(m), k),
                Ok(th) => if k <= i || k > t.len() {
                    (Err(Seq::empty()), k)
                } else if name_is(t, k) == Some("elif"@) {
                    let (re, m2) = py_if_g(t, k + 1);
                    match re {
                        Err(m) => (Err(m), m2),
                        Ok(st) => (Ok(SStmt::If(c, th, seq![st])), m2),
                    }
                } else if name_is(t, k) == Some("else"@) {
                    let (re, m2) = py_suite_g(t, k + 1);
                    match re {
                        Err(m) => (Err(m), m2),
                        Ok(el) => (Ok(SStmt::If(c, th, el)), m2),
                    }
                } else {
                    (Ok(SStmt::If(c, th, Seq::empty())), k)
                },
            }
        },
    }
}

/// One Python statement at `i`: `def`, `if`/`elif`/`else`, `while`,
/// `for name in range(a)` (from 0) or `range(a, b)`, `return`, an
/// assignment or an expression.
pub open spec fn py_stmt_g(t: Seq<STok>, i: int) -> (Result<SStmt, Seq<char>>, int)
    decreases t.len() - i, 6int,
{
    let kw = name_is(t, i);
    if kw == Some("def"@) {
        match name_is(t, i + 1) {
            None => (Err("diharapkan nama"@), i + 1),
            Some(n) => {
                let (rp, j) = params_g(t, i + 2);
                match rp {
                    Err(m) => (Err(m), j),
                    Ok(ps) => if j <= i || j > t.len() {
                        (Err(Seq::empty()), j)
                    } else {
                        let (rb, k) = py_suite_g(t, j);
                        match rb {
                            Err(m) => (Err(m), k),
                            Ok(b) => (Ok(SStmt::Func(n, ps, b)), k),
                        }
                    },
                }
            },
        }
    } else if kw == Some("if"@) {
        py_if_g(t, i + 1)
    } else if kw == Some("while"@) {
        let (rc, j) = expr_g(t, i + 1, 0);
        match rc {
            Err(m) => (Err(m), j),
            Ok(c) => if j <= i || j > t.len() {
                (Err(Seq::empty()), j)
            } else {
                let (rb, k) = py_suite_g(t, j);
                match rb {
                    Err(m) => (Err(m), k),
                    Ok(b) => (Ok(SStmt::While(c, b)), k),
                }
            },
        }
    } else if kw == Some("for"@) {
        match name_is(t, i + 1) {
            None => (Err("diharapkan nama"@), i + 1),
            Some(v) => if name_is(t, i + 2) != Some("in"@) {
                (Err("diharapkan 'in' pada for"@), i + 2)
            } else if name_is(t, i + 3) != Some("range"@) {
                (Err("hanya 'for x in range(...)' didukung"@), i + 3)
            } else if !sym_is(t, i + 4, Sym::LParen) {
                (Err(expected("'('"@)), i + 4)
            } else {
                let (r1, j) = expr_g(t, i + 5, 0);
                match r1 {
                    Err(m) => (Err(m), j),
                    Ok(first) => if j <= i || j > t.len() {
                        (Err(Seq::empty()), j)
                    } else {
                        let (r2, k) = if sym_is(t, j, Sym::Comma) {
                            expr_g(t, j + 1, 0)
                        } else {
                            (Ok(first), j)
                        };
                        match r2 {
                            Err(m) => (Err(m), k),
                            Ok(second) => if k <= i || k > t.len() || !sym_is(t, k, Sym::RParen) {
                                (Err(expected("')'"@)), k)
                            } else {
                                let (start, end) = if sym_is(t, j, Sym::Comma) { (first, second) } else { (SExpr::Int(0), first) };
                                let (rb, q) = py_suite_g(t, k + 1);
                                match rb {
                                    Err(m) => (Err(m), q),
                                    Ok(b) => (Ok(SStmt::ForRange(v, start, end, b)), q),
                                }
                            },
                        }
                    },
                }
            },
        }
    } else if kw == Some("return"@) {
        if sym_is(t, i + 1, Sym::Newline) {
            (Ok(SStmt::Return(None)), i + 1)
        } else {
            let (r, j) = expr_g(t, i + 1, 0);
            match r {
                Err(m) => (Err(m), j),
                Ok(e) => (Ok(SStmt::Return(Some(e))), j),
            }
        }
    } else {
        assign_or_expr_g(t, i)
    }
}

/// Python statements from `i` to the end, after those in `acc`; newlines
/// between them are skipped.
pub open spec fn py_prog_g(t: Seq<STok>, i: int, acc: Seq<SStmt>) -> (Result<Seq<SStmt>, Seq<char>>, int)
    decreases t.len() - i,
{
    if i < 0 || i >= t.len() {
        (Ok(acc), i)
    } else {
        let (r, j) = py_stmt_g(t, i);
        match r {
            Err(m) => (Err(m), j),
            Ok(s) => {
                let k = skip_nl(t, j);
                if k <= i || k > t.len() { (Err(Seq::empty()), k) } else { py_prog_g(t, k, acc.push(s)) }
            },
        }
    }
}

/// A Python program.
pub open spec fn py_program(t: Seq<STok>) -> Result<Seq<SStmt>, Seq<char>> {
    py_prog_g(t, skip_nl(t, 0), Seq::empty()).0
}

// ----------------------------------------------------------------------------
// Interpreter

/// How a statement finished.
pub enum Flow {
    Normal,
    Return(Value),
}

/// The deepest nesting of user function calls: a call that would go deeper
/// stops the run with an error instead of exhausting the machine's stack.
pub const CALL_DEPTH_LIMIT: usize = 64;

/// The step budget of one run: every statement, expression and loop turn
/// takes a step; past the budget the run stops with an error.
pub const STEP_LIMIT: u64 = 5_000_000;

/// Output stops growing once it holds this many bytes.
pub const OUT_LIMIT: usize = 16 * 1024;

/// Steps left before the budget is exceeded.
pub open spec fn fuel(steps: u64) -> int {
    if steps <= STEP_LIMIT { STEP_LIMIT + 1 - steps } else { 0 }
}

/// A user function: name, parameters, body.
pub struct Func {
    pub name: String,
    pub params: Vec<String>,
    pub body: Rc<Vec<Stmt>>,
}

/// `Rc::clone`: another handle on the same shared value.
#[verifier::external_body]
fn share<T>(r: &Rc<T>) -> (c: Rc<T>)
    ensures
        c == *r,
{
    Rc::clone(r)
}

/// The interpreter state: functions, variable scopes (innermost last),
/// output text and steps taken.
pub struct Interp {
    pub funcs: Vec<Func>,
    pub scopes: Vec<Vec<(String, Value)>>,
    pub out: String,
    pub steps: u64,
}

/// What one interpreter call may do: keep the scope depth, and take steps,
/// ending within the budget when it succeeds.
pub open spec fn ran(before: Interp, after: Interp, ok: bool) -> bool {
    &&& after.scopes@.len() == before.scopes@.len()
    &&& before.steps <= after.steps
    &&& after.steps <= (if before.steps <= STEP_LIMIT { STEP_LIMIT + 1 } else { before.steps + 1 })
    &&& ok ==> after.steps <= (if before.steps <= STEP_LIMIT { STEP_LIMIT as int } else { before.steps as int })
}

/// A user function as the semantics sees it.
pub struct FuncM {
    pub name: Seq<char>,
    pub params: Seq<Seq<char>>,
    pub body: Seq<SStmt>,
}

/// The interpreter state as the semantics sees it: functions, variable
/// scopes (innermost last, each a list of bindings), output, steps taken.
pub struct IM {
    pub funcs: Seq<FuncM>,
    pub scopes: Seq<Seq<(Seq<char>, Val)>>,
    pub out: Seq<char>,
    pub steps: int,
}

/// The bindings of a scope, as the semantics sees them.
pub open spec fn scope_v(sc: Seq<(String, Value)>) -> Seq<(Seq<char>, Val)> {
    sc.map_values(|p: (String, Value)| (p.0@, p.1@))
}

/// A user function, as the semantics sees it.
pub open spec fn func_v(f: Func) -> FuncM {
    FuncM { name: f.name@, params: f.params@.map_values(|p: String| p@), body: stmts_v(f.body@) }
}

impl View for Interp {
    type V = IM;

    open spec fn view(&self) -> IM {
        IM {
            funcs: self.funcs@.map_values(|f: Func| func_v(f)),
            scopes: self.scopes@.map_values(|sc: Vec<(String, Value)>| scope_v(sc@)),
            out: self.out@,
            steps: self.steps as int,
        }
    }
}

/// The first binding of `name` at or after position `i` of a scope.
pub open spec fn find_from(sc: Seq<(Seq<char>, Val)>, name: Seq<char>, i: int) -> Option<int>
    decreases sc.len() - i,
{
    if i < 0 || i >= sc.len() {
        None
    } else if sc[i].0 == name {
        Some(i)
    } else {
        find_from(sc, name, i + 1)
    }
}

proof fn lemma_find_skip(sc: Seq<(Seq<char>, Val)>, name: Seq<char>, i: int, k: int)
    requires
        0 <= i <= k <= sc.len(),
        forall|j: int| i <= j < k ==> sc[j].0 != name,
    ensures
        find_from(sc, name, i) == find_from(sc, name, k),
    decreases k - i,
{
    if i < k {
        lemma_find_skip(sc, name, i + 1, k);
    }
}

/// A scope after binding `name` to `v`: its first binding of `name` is
/// replaced, or a binding is appended when there is none.
pub open spec fn bind_m(sc: Seq<(Seq<char>, Val)>, name: Seq<char>, v: Val) -> Seq<(Seq<char>, Val)> {
    match find_from(sc, name, 0) {
        Some(j) => sc.update(j, (name, v)),
        None => sc.push((name, v)),
    }
}

/// The value of `name` in the innermost scope that binds it.
pub open spec fn lookup_m(scopes: Seq<Seq<(Seq<char>, Val)>>, name: Seq<char>) -> Option<Val>
    decreases scopes.len(),
{
    if scopes.len() == 0 {
        None
    } else {
        match find_from(scopes.last(), name, 0) {
            Some(j) => Some(scopes.last()[j].1),
            None => lookup_m(scopes.drop_last(), name),
        }
    }
}

/// The scope an assignment to `name` goes to: the innermost one binding it,
/// else the outermost one.
pub open spec fn target_m(scopes: Seq<Seq<(Seq<char>, Val)>>, name: Seq<char>) -> int
    decreases scopes.len(),
{
    if scopes.len() <= 1 {
        0
    } else if find_from(scopes.last(), name, 0) is Some {
        scopes.len() - 1
    } else {
        target_m(scopes.drop_last(), name)
    }
}

/// The scopes after assigning `v` to `name`.
pub open spec fn set_m(scopes: Seq<Seq<(Seq<char>, Val)>>, name: Seq<char>, v: Val) -> Seq<Seq<(Seq<char>, Val)>> {
    let k = target_m(scopes, name);
    scopes.update(k, bind_m(scopes[k], name, v))
}

proof fn lemma_target_take(scopes: Seq<Seq<(Seq<char>, Val)>>, name: Seq<char>, k: int)
    requires
        1 <= k <= scopes.len(),
        forall|i: int| k <= i < scopes.len() ==> find_from(scopes[i], name, 0) is None,
    ensures
        target_m(scopes, name) == target_m(scopes.take(k), name),
        0 <= target_m(scopes, name) < k,
    decreases scopes.len(),
{
    if scopes.len() > k {
        assert(scopes.drop_last().take(k) =~= scopes.take(k));
        lemma_target_take(scopes.drop_last(), name, k);
    } else {
        assert(scopes.take(k) =~= scopes);
        lemma_target_bounds(scopes, name);
    }
}

proof fn lemma_target_bounds(scopes: Seq<Seq<(Seq<char>, Val)>>, name: Seq<char>)
    requires
        scopes.len() >= 1,
    ensures
        0 <= target_m(scopes, name) < scopes.len(),
    decreases scopes.len(),
{
    if scopes.len() > 1 && find_from(scopes.last(), name, 0) is None {
        lemma_target_bounds(scopes.drop_last(), name);
    }
}

proof fn lemma_lookup_take(scopes: Seq<Seq<(Seq<char>, Val)>>, name: Seq<char>, k: int)
    requires
        0 <= k <= scopes.len(),
        forall|i: int| k <= i < scopes.len() ==> find_from(scopes[i], name, 0) is None,
    ensures
        lookup_m(scopes, name) == lookup_m(scopes.take(k), name),
    decreases scopes.len(),
{
    if scopes.len() > k {
        assert(scopes.drop_last().take(k) =~= scopes.take(k));
        lemma_lookup_take(scopes.drop_last(), name, k);
    } else {
        assert(scopes.take(k) =~= scopes);
    }
}

/// Index of the first binding of `name` in a scope.
fn find_in(scope: &Vec<(String, Value)>, name: &str) -> (r: Option<usize>)
    ensures
        r is None <==> find_from(scope_v(scope@), name@, 0) is None,
        r matches Some(i) ==> find_from(scope_v(scope@), name@, 0) == Some(i as int) && i < scope@.len(),
{
    let ghost sv = scope_v(scope@);
    let mut j: usize = 0;
    while j < scope.len()
        invariant
            j <= scope@.len(),
            sv == scope_v(scope@),
            forall|i: int| 0 <= i < j ==> sv[i].0 != name@,
        decreases scope@.len() - j,
    {
        if crate::text::string_eq_str(&scope[j].0, name) {
            proof { lemma_find_skip(sv, name@, 0, j as int); }
            return Some(j);
        }
        j = j + 1;
    }
    proof { lemma_find_skip(sv, name@, 0, j as int); }
    None
}

/// Bind `name` to `v` in a scope, replacing an existing binding.
fn bind(scope: &mut Vec<(String, Value)>, name: &str, v: Value)
    ensures
        scope_v(final(scope)@) == bind_m(scope_v(old(scope)@), name@, v@),
{
    match find_in(scope, name) {
        Some(j) => {
            let n = owned(name);
            scope.set(j, (n, v));
            assert(scope_v(scope@) =~= bind_m(scope_v(old(scope)@), name@, v@));
        },
        None => {
            scope.push((owned(name), v));
            assert(scope_v(scope@) =~= bind_m(scope_v(old(scope)@), name@, v@));
        },
    }
}

/// The first function named `name` at or after position `i`.
pub open spec fn func_from(fs: Seq<FuncM>, name: Seq<char>, i: int) -> Option<int>
    decreases fs.len() - i,
{
    if i < 0 || i >= fs.len() {
        None
    } else if fs[i].name == name {
        Some(i)
    } else {
        func_from(fs, name, i + 1)
    }
}

proof fn lemma_func_skip(fs: Seq<FuncM>, name: Seq<char>, i: int, k: int)
    requires
        0 <= i <= k <= fs.len(),
        forall|j: int| i <= j < k ==> fs[j].name != name,
    ensures
        func_from(fs, name, i) == func_from(fs, name, k),
    decreases k - i,
{
    if i < k {
        lemma_func_skip(fs, name, i + 1, k);
    }
}

/// The function table after a definition: the first function of that name
/// is replaced, or the definition is appended.
pub open spec fn define_m(fs: Seq<FuncM>, f: FuncM) -> Seq<FuncM> {
    match func_from(fs, f.name, 0) {
        Some(k) => fs.update(k, f),
        None => fs.push(f),
    }
}

/// The scope of a call: the parameters bound, in order, to the first `n`
/// argument values.
pub open spec fn bind_params_m(params: Seq<Seq<char>>, vals: Seq<Val>, n: nat) -> Seq<(Seq<char>, Val)>
    decreases n,
{
    if n == 0 {
        Seq::empty()
    } else {
        bind_m(bind_params_m(params, vals, (n - 1) as nat), params[n - 1], vals[n - 1])
    }
}

/// The step-limit message.
pub open spec fn limit_msg() -> Seq<char> {
    "batas langkah tercapai (kemungkinan loop tak berujung)"@
}

/// The state after taking a step.
pub open spec fn tick_m(st: IM) -> IM {
    IM { steps: if st.steps < u64::MAX { st.steps + 1 } else { st.steps }, ..st }
}

impl Interp {
    /// A fresh interpreter: no functions, one empty scope, no output.
    pub fn new() -> (it: Interp)
        ensures
            it.scopes@.len() == 1,
            it@ == (IM { funcs: Seq::empty(), scopes: seq![Seq::empty()], out: Seq::empty(), steps: 0 }),
    {
        let it = Interp { funcs: Vec::new(), scopes: vec![Vec::new()], out: String::new(), steps: 0 };
        assert(it@.scopes =~= seq![Seq::<(Seq<char>, Val)>::empty()]) by {
            assert(it@.scopes[0] =~= Seq::<(Seq<char>, Val)>::empty());
        }
        assert(it@.funcs =~= Seq::<FuncM>::empty());
        it
    }

    /// The value of variable `name` in the innermost scope that binds it.
    pub fn get(&self, name: &str) -> (r: Option<Value>)
        ensures
            r is None <==> lookup_m(self@.scopes, name@) is None,
            r matches Some(v) ==> lookup_m(self@.scopes, name@) == Some(v@),
    {
        let ghost sc = self@.scopes;
        let mut k = self.scopes.len();
        assert(sc.take(k as int) =~= sc);
        while k > 0
            invariant
                k <= self.scopes@.len(),
                sc == self@.scopes,
                lookup_m(sc, name@) == lookup_m(sc.take(k as int), name@),
            decreases k,
        {
            let ghost t = sc.take(k as int);
            assert(t.last() == sc[k - 1]);
            assert(t.drop_last() =~= sc.take(k - 1));
            match find_in(&self.scopes[k - 1], name) {
                Some(j) => {
                    let v = self.scopes[k - 1][j].1.copy();
                    assert(sc[k - 1][j as int].1 == self.scopes@[k - 1]@[j as int].1@);
                    return Some(v);
                },
                None => {},
            }
            k = k - 1;
        }
        None
    }

    /// Assign `name` in the innermost scope that binds it, else bind it in
    /// the outermost scope.
    #[verifier::rlimit(40)]
    pub fn set(&mut self, name: &str, v: Value)
        requires
            old(self).scopes@.len() >= 1,
        ensures
            final(self)@ == (IM { scopes: set_m(old(self)@.scopes, name@, v@), ..old(self)@ }),
            final(self).scopes@.len() == old(self).scopes@.len(),
            final(self).steps == old(self).steps,
    {
        let ghost sc = self@.scopes;
        let mut k = self.scopes.len();
        proof { lemma_target_bounds(sc, name@); }
        while k > 1
            invariant
                1 <= k <= self.scopes@.len(),
                *self == *old(self),
                sc == old(self)@.scopes,
                forall|i: int| k <= i < sc.len() ==> find_from(sc[i], name@, 0) is None,
            decreases k,
        {
            match find_in(&self.scopes[k - 1], name) {
                Some(_) => {
                    proof {
                        lemma_target_take(sc, name@, k as int);
                        let t = sc.take(k as int);
                        assert(t.last() == sc[k - 1]);
                    }
                    self.rebind_at(k - 1, name, v);
                    return;
                },
                None => {},
            }
            k = k - 1;
        }
        proof { lemma_target_take(sc, name@, 1); }
        self.rebind_at(0, name, v);
    }

    /// Bind `name` to `v` in scope `k`, leaving the other scopes.
    fn rebind_at(&mut self, k: usize, name: &str, v: Value)
        requires
            k < old(self).scopes@.len(),
        ensures
            final(self)@ == (IM { scopes: old(self)@.scopes.update(k as int, bind_m(old(self)@.scopes[k as int], name@, v@)), ..old(self)@ }),
            final(self).scopes@.len() == old(self).scopes@.len(),
            final(self).steps == old(self).steps,
    {
        let ghost s0 = self.scopes@;
        let mut sc = self.scopes.remove(k);
        bind(&mut sc, name, v);
        self.scopes.insert(k, sc);
        proof {
            assert(self@.scopes =~= old(self)@.scopes.update(k as int, bind_m(old(self)@.scopes[k as int], name@, v@))) by {
                assert forall|i: int| 0 <= i < s0.len() && i != k implies self.scopes@[i] == s0[i] by {
                    if i < k { assert(self.scopes@[i] == s0.remove(k as int)[i]); }
                    else { assert(self.scopes@[i] == s0.remove(k as int)[i - 1]); }
                }
            }
        }
    }

    /// Take a step; an error once past [`STEP_LIMIT`].
    pub fn tick(&mut self) -> (r: Result<(), String>)
        ensures
            final(self)@ == tick_m(old(self)@),
            final(self).steps == (if old(self).steps < u64::MAX { old(self).steps + 1 } else { old(self).steps as int }),
            final(self).scopes == old(self).scopes && final(self).out == old(self).out,
            final(self).funcs == old(self).funcs,
            r is Ok <==> final(self).steps <= STEP_LIMIT,
            r matches Err(e) ==> e@ == limit_msg(),
    {
        self.steps = self.steps.saturating_add(1);
        if self.steps > STEP_LIMIT {
            Err(owned("batas langkah tercapai (kemungkinan loop tak berujung)"))
        } else {
            Ok(())
        }
    }
}

/// `a / b` rounded toward zero, computed on magnitudes.
fn tdiv(a: i64, b: i64) -> (q: i64)
    requires
        b != 0,
        !(a == i64::MIN && b == -1),
    ensures
        q == trunc_div(a as int, b as int),
{
    let ua: u64 = if a < 0 { (0i128 - a as i128) as u64 } else { a as u64 };
    let ub: u64 = if b < 0 { (0i128 - b as i128) as u64 } else { b as u64 };
    let uq = ua / ub;
    assert(uq <= ua) by (nonlinear_arith) requires ub >= 1, uq == ua / ub;
    if (a < 0) == (b < 0) {
        assert(uq < 0x8000_0000_0000_0000) by (nonlinear_arith)
            requires ub >= 1, uq == ua / ub, ua <= 0x8000_0000_0000_0000, ua == 0x8000_0000_0000_0000 ==> ub >= 2;
        uq as i64
    } else {
        (0i128 - uq as i128) as i64
    }
}

/// Integer division rounding toward zero, as Rust's `/` does.
pub open spec fn trunc_div(a: int, b: int) -> int {
    let q = (if a < 0 { -a } else { a }) / (if b < 0 { -b } else { b });
    if (a < 0) == (b < 0) { q } else { -q }
}

/// The value of the non-logical binary operation `op` on `l` and `r`:
/// `+` joins texts when either side is a string and otherwise adds; `-`,
/// `*` wrap at 64 bits; `/` and `%` give 0 for a zero divisor and otherwise
/// round toward zero (the minimum over -1 wraps to itself, remainder 0);
/// comparisons read both sides as numbers; `==`/`!=` are [`eq_v`].
pub open spec fn bin_v(op: BinOp, l: Val, r: Val) -> Val {
    let (a, b) = (int_v(l), int_v(r));
    match op {
        BinOp::Add => if l is Str || r is Str {
            Val::Str(display_v(l) + display_v(r))
        } else {
            Val::Int(a.wrapping_add(b))
        },
        BinOp::Sub => Val::Int(a.wrapping_sub(b)),
        BinOp::Mul => Val::Int(a.wrapping_mul(b)),
        BinOp::Div => Val::Int(if b == 0 { 0 } else if a == i64::MIN && b == -1 { i64::MIN } else { trunc_div(a as int, b as int) as i64 }),
        BinOp::Mod => Val::Int(if b == 0 { 0 } else if a == i64::MIN && b == -1 { 0 } else { (a - b * trunc_div(a as int, b as int)) as i64 }),
        BinOp::Eq => Val::Bool(eq_v(l, r)),
        BinOp::Ne => Val::Bool(!eq_v(l, r)),
        BinOp::Lt => Val::Bool(a < b),
        BinOp::Le => Val::Bool(a <= b),
        BinOp::Gt => Val::Bool(a > b),
        BinOp::Ge => Val::Bool(a >= b),
        _ => Val::Nil,
    }
}

/// The comparisons order numbers strictly and consistently: of `a < b`,
/// `a == b` and `a > b` exactly one holds; `>` is `<` with the sides
/// swapped and `>=` is `<=` swapped; `<=` is `<` or `==`; and a value is
/// neither below nor above itself.
pub proof fn lemma_comparisons_order(a: i64, b: i64, v: Val)
    ensures
        ({
            let (l, r) = (Val::Int(a), Val::Int(b));
            &&& bin_v(BinOp::Lt, l, r) == Val::Bool(a < b)
            &&& bin_v(BinOp::Gt, l, r) == bin_v(BinOp::Lt, r, l)
            &&& bin_v(BinOp::Ge, l, r) == bin_v(BinOp::Le, r, l)
            &&& bin_v(BinOp::Le, l, r) == Val::Bool(bin_v(BinOp::Lt, l, r) == Val::Bool(true)
                || bin_v(BinOp::Eq, l, r) == Val::Bool(true))
            &&& bin_v(BinOp::Eq, l, r) == Val::Bool(a == b)
            &&& bin_v(BinOp::Ne, l, r) == Val::Bool(a != b)
        }),
        bin_v(BinOp::Lt, v, v) == Val::Bool(false),
        bin_v(BinOp::Gt, v, v) == Val::Bool(false),
        bin_v(BinOp::Le, v, v) == Val::Bool(true),
        bin_v(BinOp::Ge, v, v) == Val::Bool(true),
{
}

/// Apply a non-logical binary operator (see [`bin_v`]).
pub fn apply_bin(op: BinOp, l: &Value, r: &Value) -> (v: Value)
    ensures
        v@ == bin_v(op, l@, r@),
{
    let (a, b) = (l.as_int(), r.as_int());
    match op {
        BinOp::Add => {
            if matches!(l, Value::Str(_)) || matches!(r, Value::Str(_)) {
                let mut t = l.display();
                let rs = r.display();
                push_str(&mut t, rs.as_str());
                Value::Str(t)
            } else {
                Value::Int(a.wrapping_add(b))
            }
        },
        BinOp::Sub => Value::Int(a.wrapping_sub(b)),
        BinOp::Mul => Value::Int(a.wrapping_mul(b)),
        BinOp::Div => Value::Int(if b == 0 { 0 } else if a == i64::MIN && b == -1 { i64::MIN } else {
            tdiv(a, b)
        }),
        BinOp::Mod => Value::Int(if b == 0 { 0 } else if a == i64::MIN && b == -1 { 0 } else {
            let q = tdiv(a, b);
            assert(-0x8000_0000_0000_0000 <= a - b * q <= 0x7FFF_FFFF_FFFF_FFFF) by (nonlinear_arith)
                requires b != 0, q == trunc_div(a as int, b as int), i64::MIN <= a <= i64::MAX, i64::MIN <= b <= i64::MAX;
            ((a as i128) - (b as i128) * (q as i128)) as i64
        }),
        BinOp::Eq => Value::Bool(values_eq(l, r)),
        BinOp::Ne => Value::Bool(!values_eq(l, r)),
        BinOp::Lt => Value::Bool(a < b),
        BinOp::Le => Value::Bool(a <= b),
        BinOp::Gt => Value::Bool(a > b),
        BinOp::Ge => Value::Bool(a >= b),
        _ => Value::Nil,
    }
}

/// The text a `print` line shows: the arguments' texts joined by spaces.
pub open spec fn joined(vs: Seq<Val>) -> Seq<char>
    decreases vs.len(),
{
    if vs.len() == 0 {
        Seq::empty()
    } else if vs.len() == 1 {
        display_v(vs[0])
    } else {
        joined(vs.drop_last()) + seq![' '] + display_v(vs.last())
    }
}

/// The values of a list, as the semantics sees them.
pub open spec fn vals_v(vs: Seq<Value>) -> Seq<Val> {
    vs.map_values(|v: Value| v@)
}

/// The text of a `print` line.
fn print_line(vals: &Vec<Value>) -> (line: String)
    ensures
        line@ == joined(vals_v(vals@)),
{
    let ghost vv = vals_v(vals@);
    let mut line = String::new();
    let mut k: usize = 0;
    while k < vals.len()
        invariant
            k <= vals@.len(),
            vv == vals_v(vals@),
            line@ == joined(vv.take(k as int)),
        decreases vals@.len() - k,
    {
        if k > 0 {
            string_push(&mut line, ' ');
        }
        let d = vals[k].display();
        push_str(&mut line, d.as_str());
        proof {
            assert(vv[k as int] == vals@[k as int]@);
            assert(vv.take(k + 1).drop_last() =~= vv.take(k as int));
            if k == 0 {
                assert(line@ =~= display_v(vv[0]));
            }
        }
        k = k + 1;
    }
    assert(vv.take(vv.len() as int) =~= vv);
    line
}

/// The host binding names are pairwise distinct.
proof fn lemma_builtin_names()
    ensures
        "print"@ != "console.log"@, "print"@ != "str"@, "print"@ != "len"@, "print"@ != "abs"@,
        "console.log"@ != "str"@, "console.log"@ != "len"@, "console.log"@ != "abs"@,
        "str"@ != "len"@, "str"@ != "abs"@, "len"@ != "abs"@,
{
    reveal_strlit("print");
    reveal_strlit("console.log");
    reveal_strlit("str");
    reveal_strlit("len");
    reveal_strlit("abs");
    assert("print"@.len() == 5 && "console.log"@.len() == 11 && "str"@.len() == 3);
    assert("str"@[0] == 's' && "len"@[0] == 'l' && "abs"@[0] == 'a');
}

/// How a statement finished, as the semantics sees it.
pub enum FlowM {
    Normal,
    Ret(Val),
}

/// An expression's outcome, as the semantics sees it.
pub open spec fn res_v(r: Result<Value, String>) -> Result<Val, Seq<char>> {
    match r {
        Ok(v) => Ok(v@),
        Err(e) => Err(e@),
    }
}

/// A statement's outcome, as the semantics sees it.
pub open spec fn flow_v(r: Result<Flow, String>) -> Result<FlowM, Seq<char>> {
    match r {
        Ok(Flow::Normal) => Ok(FlowM::Normal),
        Ok(Flow::Return(v)) => Ok(FlowM::Ret(v@)),
        Err(e) => Err(e@),
    }
}

/// Steps left before the budget is exceeded.
pub open spec fn fuel_m(steps: int) -> int {
    if steps <= STEP_LIMIT { STEP_LIMIT + 1 - steps } else { 0 }
}

/// The output after a `print` of `vals`: one more line while the output is
/// under [`OUT_LIMIT`] bytes.
pub open spec fn printed(out: Seq<char>, vals: Seq<Val>) -> Seq<char> {
    if (vstd::utf8::encode_utf8(out).len() as usize) < OUT_LIMIT {
        out + joined(vals) + seq!['\n']
    } else {
        out
    }
}

/// Evaluating `e` from `st`: one step, then the expression's own work.
/// (Each sub-evaluation never takes steps back; the branches that assume
/// otherwise are never reached.)
pub open spec fn eval_m(st: IM, e: SExpr) -> (Result<Val, Seq<char>>, IM)
    decreases fuel_m(st.steps), 1int, 0int,
{
    let s1 = tick_m(st);
    if s1.steps > STEP_LIMIT {
        (Err(limit_msg()), s1)
    } else {
        match e {
            SExpr::Int(n) => (Ok(Val::Int(n)), s1),
            SExpr::Str(t) => (Ok(Val::Str(t)), s1),
            SExpr::Bool(b) => (Ok(Val::Bool(b)), s1),
            SExpr::Nil => (Ok(Val::Nil), s1),
            SExpr::Var(n) => match lookup_m(s1.scopes, n) {
                Some(v) => (Ok(v), s1),
                None => (Err("variabel '"@ + n + "' tak dikenal"@), s1),
            },
            SExpr::Neg(x) => {
                let (r, s2) = eval_m(s1, *x);
                match r {
                    Ok(v) => (Ok(Val::Int(0i64.wrapping_sub(int_v(v)))), s2),
                    Err(m) => (Err(m), s2),
                }
            },
            SExpr::Not(x) => {
                let (r, s2) = eval_m(s1, *x);
                match r {
                    Ok(v) => (Ok(Val::Bool(!truthy_v(v))), s2),
                    Err(m) => (Err(m), s2),
                }
            },
            SExpr::Bin(op, a, b) => eval_bin_m(s1, op, *a, *b),
            SExpr::Call(n, args) => eval_call_m(s1, n, args),
        }
    }
}

/// A binary operation: `&&`/`||` evaluate the right side only when the
/// left does not decide, and give a boolean; the others evaluate both
/// sides and apply [`bin_v`].
pub open spec fn eval_bin_m(st: IM, op: BinOp, a: SExpr, b: SExpr) -> (Result<Val, Seq<char>>, IM)
    decreases fuel_m(st.steps), 2int, 0int,
{
    let (ra, s1) = eval_m(st, a);
    match ra {
        Err(m) => (Err(m), s1),
        Ok(l) => if s1.steps < st.steps {
            (Err(Seq::empty()), s1)
        } else if op == BinOp::And && !truthy_v(l) {
            (Ok(Val::Bool(false)), s1)
        } else if op == BinOp::Or && truthy_v(l) {
            (Ok(Val::Bool(true)), s1)
        } else {
            let (rb, s2) = eval_m(s1, b);
            match rb {
                Err(m) => (Err(m), s2),
                Ok(rv) => if op == BinOp::And || op == BinOp::Or {
                    (Ok(Val::Bool(truthy_v(rv))), s2)
                } else {
                    (Ok(bin_v(op, l, rv)), s2)
                },
            }
        },
    }
}

/// Evaluating arguments left to right, stopping at the first error.
pub open spec fn eval_args_m(st: IM, args: Seq<SExpr>) -> (Result<Seq<Val>, Seq<char>>, IM)
    decreases fuel_m(st.steps), 2int, args.len(),
{
    if args.len() == 0 {
        (Ok(Seq::empty()), st)
    } else {
        let (r, s1) = eval_args_m(st, args.drop_last());
        match r {
            Err(m) => (Err(m), s1),
            Ok(vs) => if s1.steps < st.steps {
                (Err(Seq::empty()), s1)
            } else {
                let (rv, s2) = eval_m(s1, args.last());
                match rv {
                    Ok(v) => (Ok(vs.push(v)), s2),
                    Err(m) => (Err(m), s2),
                }
            },
        }
    }
}

/// A call: the arguments are evaluated, then the host bindings `print` /
/// `console.log` (print a line; nil), `str`, `len` (bytes of a string,
/// else 0), `abs`; otherwise the first user function of that name runs in
/// a new scope binding its parameters, unless the argument count differs
/// or the calls are already [`CALL_DEPTH_LIMIT`] deep; its `return` value
/// (nil without one) is the call's value.
pub open spec fn eval_call_m(st: IM, name: Seq<char>, args: Seq<SExpr>) -> (Result<Val, Seq<char>>, IM)
    decreases fuel_m(st.steps), 3int, 0int,
{
    let (ra, s1) = eval_args_m(st, args);
    match ra {
        Err(m) => (Err(m), s1),
        Ok(vals) => if s1.steps < st.steps {
            (Err(Seq::empty()), s1)
        } else if name == "print"@ || name == "console.log"@ {
            (Ok(Val::Nil), IM { out: printed(s1.out, vals), ..s1 })
        } else if name == "str"@ {
            (Ok(Val::Str(if vals.len() > 0 { display_v(vals[0]) } else { Seq::empty() })), s1)
        } else if name == "len"@ {
            (Ok(Val::Int(if vals.len() > 0 && vals[0] is Str {
                (vstd::utf8::encode_utf8(vals[0]->Str_0).len() as usize) as i64
            } else {
                0
            })), s1)
        } else if name == "abs"@ {
            (Ok(Val::Int(if vals.len() > 0 {
                let x = int_v(vals[0]);
                if x < 0 { 0i64.wrapping_sub(x) } else { x }
            } else {
                0
            })), s1)
        } else {
            match func_from(s1.funcs, name, 0) {
                None => (Err("fungsi '"@ + name + "' tak dikenal"@), s1),
                Some(k) => {
                    let f = s1.funcs[k];
                    if f.params.len() != vals.len() {
                        (Err("'"@ + name + "' butuh "@ + decimal(f.params.len()) + " argumen, diberi "@
                            + decimal(vals.len())), s1)
                    } else if s1.scopes.len() >= CALL_DEPTH_LIMIT {
                        (Err("panggilan terlalu dalam"@), s1)
                    } else {
                        let inner = IM { scopes: s1.scopes.push(bind_params_m(f.params, vals, vals.len())), ..s1 };
                        let (rb, s2) = block_m(inner, f.body);
                        let s3 = IM { scopes: s2.scopes.drop_last(), ..s2 };
                        match rb {
                            Ok(FlowM::Normal) => (Ok(Val::Nil), s3),
                            Ok(FlowM::Ret(v)) => (Ok(v), s3),
                            Err(m) => (Err(m), s3),
                        }
                    }
                },
            }
        },
    }
}

/// Running a block: its statements in order, until one returns or fails.
pub open spec fn block_m(st: IM, body: Seq<SStmt>) -> (Result<FlowM, Seq<char>>, IM)
    decreases fuel_m(st.steps), 2int, body.len(),
{
    if body.len() == 0 {
        (Ok(FlowM::Normal), st)
    } else {
        let (r, s1) = block_m(st, body.drop_last());
        match r {
            Ok(FlowM::Normal) => if s1.steps < st.steps {
                (Err(Seq::empty()), s1)
            } else {
                exec_m(s1, body.last())
            },
            _ => (r, s1),
        }
    }
}

/// Executing one statement from `st`: one step, then the statement's own
/// work.
pub open spec fn exec_m(st: IM, s: SStmt) -> (Result<FlowM, Seq<char>>, IM)
    decreases fuel_m(st.steps), 1int, 0int,
{
    let s1 = tick_m(st);
    if s1.steps > STEP_LIMIT {
        (Err(limit_msg()), s1)
    } else {
        match s {
            SStmt::Func(name, params, body) => (Ok(FlowM::Normal), IM {
                funcs: define_m(s1.funcs, FuncM { name, params, body }),
                ..s1
            }),
            SStmt::Assign(name, e) => {
                let (r, s2) = eval_m(s1, e);
                match r {
                    Ok(v) => (Ok(FlowM::Normal), IM { scopes: set_m(s2.scopes, name, v), ..s2 }),
                    Err(m) => (Err(m), s2),
                }
            },
            SStmt::ExprStmt(e) => {
                let (r, s2) = eval_m(s1, e);
                match r {
                    Ok(_) => (Ok(FlowM::Normal), s2),
                    Err(m) => (Err(m), s2),
                }
            },
            SStmt::Return(e) => match e {
                Some(e) => {
                    let (r, s2) = eval_m(s1, e);
                    match r {
                        Ok(v) => (Ok(FlowM::Ret(v)), s2),
                        Err(m) => (Err(m), s2),
                    }
                },
                None => (Ok(FlowM::Ret(Val::Nil)), s1),
            },
            SStmt::If(c, th, el) => {
                let (r, s2) = eval_m(s1, c);
                match r {
                    Err(m) => (Err(m), s2),
                    Ok(v) => if s2.steps < s1.steps {
                        (Err(Seq::empty()), s2)
                    } else {
                        block_m(s2, if truthy_v(v) { th } else { el })
                    },
                }
            },
            SStmt::While(c, body) => while_m(s1, c, body),
            SStmt::ForC(init, c, incr, body) => {
                let (r, s2) = exec_m(s1, *init);
                match r {
                    Err(m) => (Err(m), s2),
                    Ok(_) => if s2.steps < s1.steps {
                        (Err(Seq::empty()), s2)
                    } else {
                        forc_m(s2, c, *incr, body)
                    },
                }
            },
            SStmt::ForRange(var, a, b, body) => {
                let (ra, s2) = eval_m(s1, a);
                match ra {
                    Err(m) => (Err(m), s2),
                    Ok(va) => if s2.steps < s1.steps {
                        (Err(Seq::empty()), s2)
                    } else {
                        let (rb, s3) = eval_m(s2, b);
                        match rb {
                            Err(m) => (Err(m), s3),
                            Ok(vb) => if s3.steps < s2.steps {
                                (Err(Seq::empty()), s3)
                            } else {
                                range_m(s3, var, int_v(va) as int, int_v(vb) as int, body)
                            },
                        }
                    },
                }
            },
        }
    }
}

/// A `while` loop from `st`: while the condition holds, a step and the body.
pub open spec fn while_m(st: IM, c: SExpr, body: Seq<SStmt>) -> (Result<FlowM, Seq<char>>, IM)
    decreases fuel_m(st.steps), 2int, 0int,
{
    let (r, s1) = eval_m(st, c);
    match r {
        Err(m) => (Err(m), s1),
        Ok(v) => if !truthy_v(v) {
            (Ok(FlowM::Normal), s1)
        } else if s1.steps < st.steps {
            (Err(Seq::empty()), s1)
        } else {
            let s2 = tick_m(s1);
            if s2.steps > STEP_LIMIT {
                (Err(limit_msg()), s2)
            } else {
                let (rb, s3) = block_m(s2, body);
                match rb {
                    Ok(FlowM::Normal) => if s3.steps < s2.steps {
                        (Err(Seq::empty()), s3)
                    } else {
                        while_m(s3, c, body)
                    },
                    _ => (rb, s3),
                }
            }
        },
    }
}

/// The loop of a C-style `for` from `st`: while the condition holds, a
/// step, the body and the increment.
pub open spec fn forc_m(st: IM, c: SExpr, incr: SStmt, body: Seq<SStmt>) -> (Result<FlowM, Seq<char>>, IM)
    decreases fuel_m(st.steps), 2int, 0int,
{
    let (r, s1) = eval_m(st, c);
    match r {
        Err(m) => (Err(m), s1),
        Ok(v) => if !truthy_v(v) {
            (Ok(FlowM::Normal), s1)
        } else if s1.steps < st.steps {
            (Err(Seq::empty()), s1)
        } else {
            let s2 = tick_m(s1);
            if s2.steps > STEP_LIMIT {
                (Err(limit_msg()), s2)
            } else {
                let (rb, s3) = block_m(s2, body);
                match rb {
                    Ok(FlowM::Normal) => if s3.steps < s2.steps {
                        (Err(Seq::empty()), s3)
                    } else {
                        let (ri, s4) = exec_m(s3, incr);
                        match ri {
                            Err(m) => (Err(m), s4),
                            Ok(_) => if s4.steps < s3.steps {
                                (Err(Seq::empty()), s4)
                            } else {
                                forc_m(s4, c, incr, body)
                            },
                        }
                    },
                    _ => (rb, s3),
                }
            }
        },
    }
}

/// A range loop from `st` over `i .. end` (end exclusive): for each value a
/// step, the variable bound to it, and the body.
pub open spec fn range_m(st: IM, var: Seq<char>, i: int, end: int, body: Seq<SStmt>) -> (Result<FlowM, Seq<char>>, IM)
    decreases fuel_m(st.steps), 2int, 0int,
{
    if i >= end {
        (Ok(FlowM::Normal), st)
    } else {
        let s1 = tick_m(st);
        if s1.steps > STEP_LIMIT {
            (Err(limit_msg()), s1)
        } else {
            let s2 = IM { scopes: set_m(s1.scopes, var, Val::Int(i as i64)), ..s1 };
            let (rb, s3) = block_m(s2, body);
            match rb {
                Ok(FlowM::Normal) => if s3.steps < s2.steps {
                    (Err(Seq::empty()), s3)
                } else {
                    range_m(s3, var, i + 1, end, body)
                },
                _ => (rb, s3),
            }
        }
    }
}

proof fn lemma_block_stops(st: IM, body: Seq<SStmt>, k: int, n: int)
    requires
        1 <= k <= n <= body.len(),
        block_m(st, body.take(k)).0 != Ok::<FlowM, Seq<char>>(FlowM::Normal),
    ensures
        block_m(st, body.take(n)) == block_m(st, body.take(k)),
    decreases n - k,
{
    if n > k {
        lemma_block_stops(st, body, k, n - 1);
        assert(body.take(n).drop_last() =~= body.take(n - 1));
    }
}

proof fn lemma_args_stop(st: IM, args: Seq<SExpr>, k: int, n: int)
    requires
        1 <= k <= n <= args.len(),
        eval_args_m(st, args.take(k)).0 is Err,
    ensures
        eval_args_m(st, args.take(n)) == eval_args_m(st, args.take(k)),
    decreases n - k,
{
    if n > k {
        lemma_args_stop(st, args, k, n - 1);
        assert(args.take(n).drop_last() =~= args.take(n - 1));
    }
}

impl Interp {
    /// Run a block; the first `return` ends it (see [`block_m`]).
    pub fn run_block(&mut self, body: &Vec<Stmt>) -> (r: Result<Flow, String>)
        requires
            old(self).scopes@.len() >= 1,
        ensures
            ran(*old(self), *final(self), r is Ok),
            (flow_v(r), final(self)@) == block_m(old(self)@, stmts_v(body@)),
        decreases fuel(old(self).steps), 2int,
    {
        let ghost st0 = self@;
        let ghost sv = stmts_v(body@);
        proof { lemma_stmts_v(body@); }
        let mut i: usize = 0;
        assert(sv.take(0) =~= Seq::<SStmt>::empty());
        while i < body.len()
            invariant
                i <= body@.len(),
                ran(*old(self), *self, true),
                self.scopes@.len() >= 1,
                st0 == old(self)@,
                sv == stmts_v(body@),
                sv.len() == body@.len(),
                forall|k: int| 0 <= k < body@.len() ==> #[trigger] sv[k] == stmt_v(body@[k]),
                block_m(st0, sv.take(i as int)) == (Ok::<FlowM, Seq<char>>(FlowM::Normal), self@),
            decreases body@.len() - i,
        {
            let f = self.exec(&body[i]);
            proof {
                assert(sv.take(i + 1).drop_last() =~= sv.take(i as int));
                assert(sv.take(i + 1).last() == sv[i as int]);
                assert(block_m(st0, sv.take(i + 1)) == (flow_v(f), self@));
            }
            match f {
                Ok(Flow::Return(v)) => {
                    proof {
                        lemma_block_stops(st0, sv, i + 1, sv.len() as int);
                        assert(sv.take(sv.len() as int) =~= sv);
                    }
                    return Ok(Flow::Return(v));
                },
                Ok(Flow::Normal) => {},
                Err(e) => {
                    proof {
                        lemma_block_stops(st0, sv, i + 1, sv.len() as int);
                        assert(sv.take(sv.len() as int) =~= sv);
                    }
                    return Err(e);
                },
            }
            i = i + 1;
        }
        assert(sv.take(sv.len() as int) =~= sv);
        Ok(Flow::Normal)
    }

    /// Execute one statement (see [`exec_m`]).
    #[verifier::rlimit(60)]
    pub fn exec(&mut self, s: &Stmt) -> (r: Result<Flow, String>)
        requires
            old(self).scopes@.len() >= 1,
        ensures
            ran(*old(self), *final(self), r is Ok),
            (flow_v(r), final(self)@) == exec_m(old(self)@, stmt_v(*s)),
        decreases fuel(old(self).steps), 1int,
    {
        self.tick()?;
        let ghost s1 = self@;
        match s {
            Stmt::Func(name, params, body) => {
                let f = Func { name: name.clone(), params: params.clone(), body: share(body) };
                proof {
                    assert(f.params@ =~= params@) by {
                        assert forall|i: int| 0 <= i < params@.len() implies f.params@[i] == params@[i] by {
                            assert(vstd::pervasive::cloned::<String>(params@[i], f.params@[i]));
                        }
                    }
                    assert(func_v(f).params =~= params@.map_values(|p: String| p@));
                }
                let ghost fm = func_v(f);
                let ghost fs0 = self@.funcs;
                let mut k: usize = 0;
                let mut found = false;
                while k < self.funcs.len() && !found
                    invariant
                        k <= self.funcs@.len(),
                        found ==> k < self.funcs@.len(),
                        found ==> fs0[k as int].name == name@,
                        forall|j: int| 0 <= j < k ==> fs0[j].name != name@,
                        self@ == s1,
                        fs0 == s1.funcs,
                        *self == *old(self) || ran(*old(self), *self, true),
                        ran(*old(self), *self, true),
                    decreases self.funcs@.len() - k + (if found { 0int } else { 1int }),
                {
                    if crate::text::string_eq(&self.funcs[k].name, name) {
                        found = true;
                    } else {
                        k = k + 1;
                    }
                }
                if found {
                    proof { lemma_func_skip(fs0, name@, 0, k as int); }
                    self.funcs.set(k, f);
                    assert(self@.funcs =~= define_m(fs0, fm));
                } else {
                    proof { lemma_func_skip(fs0, name@, 0, k as int); }
                    self.funcs.push(f);
                    assert(self@.funcs =~= define_m(fs0, fm));
                }
                Ok(Flow::Normal)
            },
            Stmt::Assign(name, e) => {
                let v = self.eval(e)?;
                self.set(name.as_str(), v);
                Ok(Flow::Normal)
            },
            Stmt::ExprStmt(e) => {
                self.eval(e)?;
                Ok(Flow::Normal)
            },
            Stmt::Return(e) => {
                let v = match e {
                    Some(e) => self.eval(e)?,
                    None => Value::Nil,
                };
                Ok(Flow::Return(v))
            },
            Stmt::If(cond, then, els) => {
                let c = self.eval(cond)?;
                let r = if c.truthy() { self.run_block(then) } else { self.run_block(els) };
                r
            },
            Stmt::While(cond, body) => {
                loop
                    invariant_except_break
                        exec_m(old(self)@, stmt_v(*s)) == while_m(self@, expr_v(*cond), stmts_v(body@)),
                    invariant
                        ran(*old(self), *self, true),
                        self.scopes@.len() >= 1,
                        self.steps <= STEP_LIMIT,
                        old(self).steps < self.steps,
                        s is While,
                        s->While_0 == *cond && s->While_1 == *body,
                    ensures
                        ran(*old(self), *self, true),
                        exec_m(old(self)@, stmt_v(*s)) == (Ok::<FlowM, Seq<char>>(FlowM::Normal), self@),
                    decreases fuel(self.steps),
                {
                    let c = self.eval(cond)?;
                    if !c.truthy() {
                        break;
                    }
                    self.tick()?;
                    let r = self.run_block(body);
                    match r {
                        Ok(Flow::Return(v)) => {
                            return Ok(Flow::Return(v));
                        },
                        Ok(Flow::Normal) => {},
                        Err(e) => {
                            return Err(e);
                        },
                    }
                }
                Ok(Flow::Normal)
            },
            Stmt::ForC(init, cond, incr, body) => {
                self.exec(init)?;
                let ghost s2 = self@;
                loop
                    invariant_except_break
                        exec_m(old(self)@, stmt_v(*s)) == forc_m(self@, expr_v(*cond), stmt_v(**incr), stmts_v(body@)),
                    invariant
                        ran(*old(self), *self, true),
                        self.scopes@.len() >= 1,
                        self.steps <= STEP_LIMIT,
                        old(self).steps < self.steps,
                        s is ForC,
                        *s->ForC_2 == **incr && s->ForC_1 == *cond && s->ForC_3 == *body,
                    ensures
                        ran(*old(self), *self, true),
                        exec_m(old(self)@, stmt_v(*s)) == (Ok::<FlowM, Seq<char>>(FlowM::Normal), self@),
                    decreases fuel(self.steps),
                {
                    let c = self.eval(cond)?;
                    if !c.truthy() {
                        break;
                    }
                    self.tick()?;
                    let r = self.run_block(body);
                    match r {
                        Ok(Flow::Return(v)) => {
                            return Ok(Flow::Return(v));
                        },
                        Ok(Flow::Normal) => {},
                        Err(e) => {
                            return Err(e);
                        },
                    }
                    self.exec(incr)?;
                }
                Ok(Flow::Normal)
            },
            Stmt::ForRange(var, start, end, body) => {
                let a = self.eval(start)?.as_int();
                let b = self.eval(end)?.as_int();
                let ghost s3 = self@;
                let mut i = a;
                while i < b
                    invariant
                        ran(*old(self), *self, true),
                        self.scopes@.len() >= 1,
                        self.steps <= STEP_LIMIT,
                        old(self).steps < self.steps,
                        s is ForRange,
                        a <= i,
                        exec_m(old(self)@, stmt_v(*s)) == range_m(self@, var@, i as int, b as int, stmts_v(body@)),
                    decreases fuel(self.steps),
                {
                    self.tick()?;
                    self.set(var.as_str(), Value::Int(i));
                    let r = self.run_block(body);
                    match r {
                        Ok(Flow::Return(v)) => {
                            return Ok(Flow::Return(v));
                        },
                        Ok(Flow::Normal) => {},
                        Err(e) => {
                            return Err(e);
                        },
                    }
                    i = i + 1;
                }
                Ok(Flow::Normal)
            },
        }
    }
}

impl Interp {
    /// Evaluate an expression (see [`eval_m`]).
    pub fn eval(&mut self, e: &Expr) -> (r: Result<Value, String>)
        requires
            old(self).scopes@.len() >= 1,
        ensures
            ran(*old(self), *final(self), r is Ok),
            (res_v(r), final(self)@) == eval_m(old(self)@, expr_v(*e)),
        decreases fuel(old(self).steps), 1int,
    {
        self.tick()?;
        match e {
            Expr::Int(n) => Ok(Value::Int(*n)),
            Expr::Str(s) => Ok(Value::Str(s.clone())),
            Expr::Bool(b) => Ok(Value::Bool(*b)),
            Expr::Nil => Ok(Value::Nil),
            Expr::Var(name) => match self.get(name.as_str()) {
                Some(v) => Ok(v),
                None => {
                    let mut m = owned("variabel '");
                    push_str(&mut m, name.as_str());
                    push_str(&mut m, "' tak dikenal");
                    Err(m)
                },
            },
            Expr::Neg(x) => {
                let v = self.eval(x)?;
                Ok(Value::Int(0i64.wrapping_sub(v.as_int())))
            },
            Expr::Not(x) => {
                let v = self.eval(x)?;
                Ok(Value::Bool(!v.truthy()))
            },
            Expr::Bin(op, a, b) => self.eval_bin(*op, a, b),
            Expr::Call(name, args) => self.eval_call(name, args),
        }
    }

    /// A binary operation (see [`eval_bin_m`]).
    pub fn eval_bin(&mut self, op: BinOp, a: &Expr, b: &Expr) -> (r: Result<Value, String>)
        requires
            old(self).scopes@.len() >= 1,
        ensures
            ran(*old(self), *final(self), r is Ok),
            (res_v(r), final(self)@) == eval_bin_m(old(self)@, op, expr_v(*a), expr_v(*b)),
        decreases fuel(old(self).steps), 2int,
    {
        if op == BinOp::And {
            let l = self.eval(a)?;
            if !l.truthy() {
                return Ok(Value::Bool(false));
            }
            let rv = self.eval(b)?;
            return Ok(Value::Bool(rv.truthy()));
        }
        if op == BinOp::Or {
            let l = self.eval(a)?;
            if l.truthy() {
                return Ok(Value::Bool(true));
            }
            let rv = self.eval(b)?;
            return Ok(Value::Bool(rv.truthy()));
        }
        let l = self.eval(a)?;
        let rv = self.eval(b)?;
        Ok(apply_bin(op, &l, &rv))
    }

    /// A call (see [`eval_call_m`]).
    #[verifier::rlimit(80)]
    pub fn eval_call(&mut self, name: &String, args: &Vec<Expr>) -> (r: Result<Value, String>)
        requires
            old(self).scopes@.len() >= 1,
        ensures
            ran(*old(self), *final(self), r is Ok),
            (res_v(r), final(self)@) == eval_call_m(old(self)@, name@, exprs_v(args@)),
        decreases fuel(old(self).steps), 3int,
    {
        let ghost st0 = self@;
        let ghost ev = exprs_v(args@);
        proof { lemma_exprs_v(args@); }
        let mut vals: Vec<Value> = Vec::new();
        let mut i: usize = 0;
        assert(ev.take(0) =~= Seq::<SExpr>::empty());
        assert(vals_v(vals@) =~= Seq::<Val>::empty());
        while i < args.len()
            invariant
                i <= args@.len(),
                ran(*old(self), *self, true),
                self.scopes@.len() >= 1,
                st0 == old(self)@,
                ev == exprs_v(args@),
                ev.len() == args@.len(),
                forall|k: int| 0 <= k < args@.len() ==> #[trigger] ev[k] == expr_v(args@[k]),
                eval_args_m(st0, ev.take(i as int)) == (Ok::<Seq<Val>, Seq<char>>(vals_v(vals@)), self@),
            decreases args@.len() - i,
        {
            let v = self.eval(&args[i]);
            proof {
                assert(ev.take(i + 1).drop_last() =~= ev.take(i as int));
                assert(ev.take(i + 1).last() == ev[i as int]);
            }
            match v {
                Ok(v) => {
                    let ghost before = vals@;
                    vals.push(v);
                    proof {
                        assert(vals_v(vals@) =~= vals_v(before).push(v@));
                    }
                },
                Err(e) => {
                    proof {
                        lemma_args_stop(st0, ev, i + 1, ev.len() as int);
                        assert(ev.take(ev.len() as int) =~= ev);
                    }
                    return Err(e);
                },
            }
            i = i + 1;
        }
        assert(ev.take(ev.len() as int) =~= ev);
        let ghost vv = vals_v(vals@);
        let ghost s1 = self@;
        proof { lemma_builtin_names(); }
        let n = name.as_str();
        if str_eq(n, "print") || str_eq(n, "console.log") {
            let line = print_line(&vals);
            let ghost out0 = self.out@;
            if self.out.as_str().len() < OUT_LIMIT {
                push_str(&mut self.out, line.as_str());
                string_push(&mut self.out, '\n');
                assert(self.out@ == out0 + line@ + seq!['\n']);
            }
            assert(self@ == IM { out: printed(s1.out, vv), ..s1 });
            return Ok(Value::Nil);
        }
        if str_eq(n, "str") {
            let t = if vals.len() > 0 { vals[0].display() } else { String::new() };
            return Ok(Value::Str(t));
        }
        if str_eq(n, "len") {
            let k: i64 = if vals.len() > 0 {
                match &vals[0] {
                    Value::Str(t) => t.as_str().len() as i64,
                    _ => 0,
                }
            } else {
                0
            };
            return Ok(Value::Int(k));
        }
        if str_eq(n, "abs") {
            let k: i64 = if vals.len() > 0 {
                let x = vals[0].as_int();
                if x < 0 { 0i64.wrapping_sub(x) } else { x }
            } else {
                0
            };
            return Ok(Value::Int(k));
        }
        let ghost fs = s1.funcs;
        let mut fi: usize = 0;
        let mut found = false;
        while fi < self.funcs.len() && !found
            invariant
                fi <= self.funcs@.len(),
                self@ == s1,
                fs == s1.funcs,
                found ==> fi < self.funcs@.len(),
                found ==> fs[fi as int].name == name@,
                forall|j: int| 0 <= j < fi ==> fs[j].name != name@,
            decreases self.funcs@.len() - fi + (if found { 0int } else { 1int }),
        {
            if crate::text::string_eq(&self.funcs[fi].name, name) {
                found = true;
            } else {
                fi = fi + 1;
            }
        }
        proof { lemma_func_skip(fs, name@, 0, fi as int); }
        if !found {
            let mut m = owned("fungsi '");
            push_str(&mut m, n);
            push_str(&mut m, "' tak dikenal");
            return Err(m);
        }
        let ghost fm = fs[fi as int];
        let params = self.funcs[fi].params.clone();
        let body = share(&self.funcs[fi].body);
        proof {
            assert(params@ =~= self.funcs@[fi as int].params@) by {
                assert forall|i: int| 0 <= i < params@.len() implies params@[i] == self.funcs@[fi as int].params@[i] by {
                    assert(vstd::pervasive::cloned::<String>(self.funcs@[fi as int].params@[i], params@[i]));
                }
            }
            assert(fm.params == params@.map_values(|p: String| p@));
            assert(fm.body == stmts_v(body@));
        }
        if params.len() != vals.len() {
            let mut m = owned("'");
            push_str(&mut m, n);
            push_str(&mut m, "' butuh ");
            crate::text::push_decimal(&mut m, params.len() as u64);
            push_str(&mut m, " argumen, diberi ");
            crate::text::push_decimal(&mut m, vals.len() as u64);
            return Err(m);
        }
        let mut local: Vec<(String, Value)> = Vec::new();
        let mut k: usize = 0;
        let mut vals = vals;
        assert(scope_v(local@) =~= bind_params_m(fm.params, vv, 0));
        while k < params.len()
            invariant
                k <= params@.len(),
                params@.len() == vv.len(),
                params@.len() == vals@.len() + k,
                fm.params == params@.map_values(|p: String| p@),
                vals_v(vals@) == vv.skip(k as int),
                scope_v(local@) == bind_params_m(fm.params, vv, k as nat),
            decreases params@.len() - k,
        {
            let ghost before = vals@;
            let v = vals.remove(0);
            proof {
                assert(v@ == vv[k as int]) by { assert(vals_v(before)[0] == vv.skip(k as int)[0]); }
                assert(vals_v(vals@) =~= vv.skip(k + 1)) by {
                    assert forall|j: int| 0 <= j < vals@.len() implies vals_v(vals@)[j] == vv.skip(k + 1)[j] by {
                        assert(vals@[j] == before[j + 1]);
                        assert(vals_v(before)[j + 1] == vv.skip(k as int)[j + 1]);
                    }
                }
            }
            bind(&mut local, params[k].as_str(), v);
            k = k + 1;
        }
        if self.scopes.len() >= CALL_DEPTH_LIMIT {
            return Err(owned("panggilan terlalu dalam"));
        }
        self.scopes.push(local);
        let ghost inner = self@;
        assert(inner == IM { scopes: s1.scopes.push(bind_params_m(fm.params, vv, vv.len())), ..s1 }) by {
            assert(inner.scopes =~= s1.scopes.push(bind_params_m(fm.params, vv, vv.len())));
        }
        let res = self.run_block(&body);
        let ghost s2 = self@;
        self.scopes.pop();
        assert(self@ == IM { scopes: s2.scopes.drop_last(), ..s2 }) by {
            assert(self@.scopes =~= s2.scopes.drop_last());
        }
        match res {
            Ok(Flow::Return(v)) => Ok(v),
            Ok(Flow::Normal) => Ok(Value::Nil),
            Err(e) => Err(e),
        }
    }
}

/// The lines of a text, as `str::lines` splits them (at `\n`, a `\r`
/// right before it dropped, no empty line after a final `\n`).
pub open spec fn text_lines(s: Seq<char>) -> Seq<Seq<char>>
    decreases s.len(),
{
    if s.len() == 0 {
        Seq::empty()
    } else {
        let j = first_nl(s, 0);
        let line = s.subrange(0, j as int);
        let line = if j < s.len() && line.len() > 0 && line.last() == '\r' { line.drop_last() } else { line };
        if j < s.len() { seq![line] + text_lines(s.subrange(j as int + 1, s.len() as int)) } else { seq![line] }
    }
}

/// The first `\n` at or after `i` (or the end).
pub open spec fn first_nl(s: Seq<char>, i: nat) -> nat
    decreases s.len() - i,
{
    if i < s.len() && s[i as int] != '\n' { first_nl(s, i + 1) } else { i }
}

proof fn lemma_first_nl(s: Seq<char>, i: nat)
    ensures
        i <= s.len() ==> i <= first_nl(s, i) <= s.len(),
        i <= s.len() ==> forall|k: int| i <= k < first_nl(s, i) ==> s[k] != '\n',
        first_nl(s, i) < s.len() ==> s[first_nl(s, i) as int] == '\n',
    decreases s.len() - i,
{
    if i < s.len() && s[i as int] != '\n' {
        lemma_first_nl(s, i + 1);
    }
}

proof fn lemma_first_nl_shift(s: Seq<char>, a: nat, i: nat)
    requires
        a <= i <= s.len(),
    ensures
        first_nl(s, i) == a + first_nl(s.subrange(a as int, s.len() as int), (i - a) as nat),
    decreases s.len() - i,
{
    if i < s.len() && s[i as int] != '\n' {
        lemma_first_nl_shift(s, a, i + 1);
    }
}

/// Split a text into lines (see [`text_lines`]).
pub fn lines_of(s: &String) -> (r: Vec<String>)
    ensures
        texts(r@) == text_lines(s@),
{
    let n = s.unicode_len();
    let ghost t = s@;
    let mut out: Vec<String> = Vec::new();
    let mut start: usize = 0;
    assert(t.subrange(0, t.len() as int) =~= t);
    while start < n
        invariant
            n == t.len(),
            t == s@,
            start <= n,
            texts(out@) + text_lines(t.subrange(start as int, n as int)) == text_lines(t),
        decreases n - start,
    {
        let ghost rest = t.subrange(start as int, n as int);
        let mut line = String::new();
        let mut j = start;
        proof { lemma_first_nl(rest, 0); }
        while j < n && s.get_char(j) != '\n'
            invariant
                start <= j <= n,
                n == t.len(),
                t == s@,
                rest == t.subrange(start as int, n as int),
                line@ == t.subrange(start as int, j as int),
                first_nl(rest, 0) == first_nl(rest, (j - start) as nat),
            decreases n - j,
        {
            let c = s.get_char(j);
            string_push(&mut line, c);
            j = j + 1;
            assert(line@ =~= t.subrange(start as int, j as int));
        }
        assert(first_nl(rest, (j - start) as nat) == j - start);
        let ghost raw = line@;
        if j < n && line.unicode_len() > 0 && line.get_char(line.unicode_len() - 1) == '\r' {
            let mut trimmed = String::new();
            let m = line.unicode_len() - 1;
            let mut q: usize = 0;
            while q < m
                invariant
                    q <= m,
                    m + 1 == line@.len(),
                    trimmed@ == line@.subrange(0, q as int),
                decreases m - q,
            {
                string_push(&mut trimmed, line.get_char(q));
                q = q + 1;
                assert(trimmed@ =~= line@.subrange(0, q as int));
            }
            assert(trimmed@ =~= raw.drop_last());
            line = trimmed;
        }
        let ghost lv = line@;
        assert(rest.subrange(0, (j - start) as int) =~= raw);
        assert(first_nl(rest, 0) == j - start);
        assert(lv == (if j < n && raw.len() > 0 && raw.last() == '\r' { raw.drop_last() } else { raw }));
        out.push(line);
        proof {
            assert(texts(out@) =~= texts(out@.drop_last()).push(lv));
            if j < n {
                assert(rest.subrange((j - start + 1) as int, rest.len() as int) =~= t.subrange(j + 1, n as int));
                assert(text_lines(rest) == seq![lv] + text_lines(t.subrange(j + 1, n as int)));
                assert(texts(out@) + text_lines(t.subrange(j + 1, n as int))
                    =~= texts(out@.drop_last()) + text_lines(rest));
            } else {
                assert(text_lines(rest) == seq![lv]);
                assert(t.subrange(n as int, n as int) =~= Seq::<char>::empty());
                assert(texts(out@) + text_lines(t.subrange(n as int, n as int)) =~= texts(out@.drop_last()) + text_lines(rest));
            }
        }
        if j >= n {
            start = n;
        } else {
            start = j + 1;
        }
    }
    assert(t.subrange(n as int, n as int) =~= Seq::<char>::empty());
    assert(texts(out@) + Seq::<Seq<char>>::empty() =~= texts(out@));
    out
}

/// What a run produced: output lines, the error that stopped it (if any),
/// and the steps it took.
pub struct Output {
    pub lines: Vec<String>,
    pub error: Option<String>,
    pub steps: u64,
}

/// The bytes a source is lexed from: the source itself, or for TypeScript
/// its type-stripped JavaScript.
pub open spec fn lex_input(lang: Lang, src: Seq<char>) -> Seq<u8> {
    match lang {
        Lang::Ts => vstd::utf8::encode_utf8(ts_js(src)),
        _ => vstd::utf8::encode_utf8(src),
    }
}

/// Lexing a source in `lang` (see [`lex_from`], [`py_lex`]).
pub open spec fn lex_lang(lang: Lang, src: Seq<char>) -> LexOut {
    let b = lex_input(lang, src);
    match lang {
        Lang::Python => py_lex(b, split_lines(b, 0), seq![0nat]),
        _ => lex_from(b, 0),
    }
}

/// The state after running the function definitions of `p`, in order.
pub open spec fn hoist_m(st: IM, p: Seq<SStmt>) -> IM
    decreases p.len(),
{
    if p.len() == 0 {
        st
    } else {
        let s1 = hoist_m(st, p.drop_last());
        if p.last() is Func { exec_m(s1, p.last()).1 } else { s1 }
    }
}

/// Running the other statements of `p` in order until one fails: the
/// error, if one did, and the state.
pub open spec fn main_m(st: IM, p: Seq<SStmt>) -> (Option<Seq<char>>, IM)
    decreases p.len(),
{
    if p.len() == 0 {
        (None, st)
    } else {
        let (e, s1) = main_m(st, p.drop_last());
        if e is Some || p.last() is Func {
            (e, s1)
        } else {
            let (r, s2) = exec_m(s1, p.last());
            match r {
                Err(m) => (Some(m), s2),
                Ok(_) => (None, s2),
            }
        }
    }
}

/// The interpreter's initial state.
pub open spec fn start_m() -> IM {
    IM { funcs: Seq::empty(), scopes: seq![Seq::empty()], out: Seq::empty(), steps: 0 }
}

/// What running a program gives: function definitions first, then the
/// other statements in order until one fails; the output's lines, the
/// error, and the steps taken.
pub open spec fn program_m(p: Seq<SStmt>) -> (Seq<Seq<char>>, Option<Seq<char>>, int) {
    let (e, s) = main_m(hoist_m(start_m(), p), p);
    (text_lines(s.out), e, s.steps)
}

/// The program a source in `lang` parses to, or the lexical or syntax
/// error.
pub open spec fn parsed(lang: Lang, src: Seq<char>) -> Result<Seq<SStmt>, Seq<char>> {
    match lex_lang(lang, src) {
        LexOut::Fail(m) => Err(m),
        LexOut::Toks(ts) => match lang {
            Lang::Python => py_program(ts),
            _ => js_program(ts),
        },
    }
}

/// An error, as the semantics sees it.
pub open spec fn err_v(e: Option<String>) -> Option<Seq<char>> {
    match e {
        Some(m) => Some(m@),
        None => None,
    }
}

/// Run a parsed program: function definitions are hoisted (so calls before
/// a definition work); the statements then run in order until one fails
/// (see [`program_m`]).
pub fn run_program(program: &Vec<Stmt>) -> (r: Output)
    ensures
        (texts(r.lines@), err_v(r.error), r.steps as int) == program_m(stmts_v(program@)),
{
    let ghost p = stmts_v(program@);
    proof { lemma_stmts_v(program@); }
    let mut it = Interp::new();
    let mut i: usize = 0;
    assert(p.take(0) =~= Seq::<SStmt>::empty());
    while i < program.len()
        invariant
            i <= program@.len(),
            it.scopes@.len() == 1,
            p == stmts_v(program@),
            p.len() == program@.len(),
            forall|k: int| 0 <= k < program@.len() ==> #[trigger] p[k] == stmt_v(program@[k]),
            it@ == hoist_m(start_m(), p.take(i as int)),
        decreases program@.len() - i,
    {
        proof { assert(p.take(i + 1).drop_last() =~= p.take(i as int)); }
        if matches!(&program[i], Stmt::Func(..)) {
            let _ = it.exec(&program[i]);
        }
        i = i + 1;
    }
    assert(p.take(p.len() as int) =~= p);
    let ghost h = it@;
    let mut error: Option<String> = None;
    let mut i: usize = 0;
    assert(p.take(0) =~= Seq::<SStmt>::empty());
    while i < program.len() && error.is_none()
        invariant
            i <= program@.len(),
            it.scopes@.len() == 1,
            p == stmts_v(program@),
            p.len() == program@.len(),
            forall|k: int| 0 <= k < program@.len() ==> #[trigger] p[k] == stmt_v(program@[k]),
            h == hoist_m(start_m(), p),
            error is None ==> main_m(h, p.take(i as int)) == (err_v(error), it@),
            error is Some ==> i < program@.len() && main_m(h, p.take(i + 1)) == (err_v(error), it@),
        decreases program@.len() - i + (if error is None { 1int } else { 0int }),
    {
        proof { assert(p.take(i + 1).drop_last() =~= p.take(i as int)); }
        if !matches!(&program[i], Stmt::Func(..)) {
            match it.exec(&program[i]) {
                Ok(_) => {},
                Err(e) => {
                    error = Some(e);
                },
            }
        }
        if error.is_none() {
            i = i + 1;
        }
    }
    proof {
        let k = if error is None { i as int } else { i + 1 };
        lemma_main_stops(h, p, k, p.len() as int);
        assert(p.take(p.len() as int) =~= p);
    }
    let lines = lines_of(&it.out);
    Output { lines, error, steps: it.steps }
}

proof fn lemma_main_stops(st: IM, p: Seq<SStmt>, k: int, n: int)
    requires
        0 <= k <= n <= p.len(),
        main_m(st, p.take(k)).0 is Some || k == n,
    ensures
        main_m(st, p.take(n)) == main_m(st, p.take(k)),
    decreases n - k,
{
    if n > k {
        lemma_main_stops(st, p, k, n - 1);
        assert(p.take(n).drop_last() =~= p.take(n - 1));
    }
}

/// Parse and run `src` in `lang`. Function definitions are hoisted (so
/// calls before a definition work); the statements then run in order until
/// one fails. A lexical or syntax error gives no output, "parse: " and the
/// message, and no steps. Never panics.
pub fn run(lang: Lang, src: &str) -> (r: Output)
    ensures
        match parsed(lang, src@) {
            Err(m) => r.lines@.len() == 0 && r.steps == 0 && err_v(r.error) == Some("parse: "@ + m),
            Ok(p) => (texts(r.lines@), err_v(r.error), r.steps as int) == program_m(p),
        },
{
    let lexed = match lang {
        Lang::Js => lex_js(src),
        Lang::Ts => {
            let js = ts_to_js(src);
            lex_js(js.as_str())
        },
        Lang::Python => lex_py(src),
    };
    let parsed = match lexed {
        Ok(toks) => match lang {
            Lang::Python => parse_py(toks),
            _ => parse_js(toks),
        },
        Err(e) => Err(e),
    };
    let program = match parsed {
        Ok(p) => p,
        Err(e) => {
            let mut m = owned("parse: ");
            push_str(&mut m, e.as_str());
            return Output { lines: Vec::new(), error: Some(m), steps: 0 };
        },
    };
    run_program(&program)
}

/// The JavaScript sample program.
pub const DEMO_JS: &'static str = "// Buitenzorg polyglot demo (JavaScript)\nfunction fib(n) {\n  if (n < 2) { return n; }\n  return fib(n - 1) + fib(n - 2);\n}\nlet total = 0;\nfor (let i = 0; i < 10; i = i + 1) {\n  total = total + fib(i);\n}\nconsole.log(\"js: fib(10) = \" + fib(10));\nconsole.log(\"js: sum fib(0..9) = \" + total);\n";

/// The TypeScript sample program.
pub const DEMO_TS: &'static str = "// Buitenzorg polyglot demo (TypeScript)\ninterface Calc { n: number; }\ntype Num = number;\nfunction fib(n: number): number {\n  if (n < 2) { return n; }\n  return fib(n - 1) + fib(n - 2);\n}\nlet total: Num = 0;\nfor (let i: number = 0; i < 10; i = i + 1) {\n  total = total + fib(i);\n}\nconsole.log(\"ts: fib(10) = \" + fib(10));\nconsole.log(\"ts: sum fib(0..9) = \" + total);\n";

/// The Python sample program.
pub const DEMO_PY: &'static str = "# Buitenzorg polyglot demo (Python)\ndef fib(n):\n    if n < 2:\n        return n\n    return fib(n - 1) + fib(n - 2)\n\ntotal = 0\nfor i in range(0, 10):\n    total = total + fib(i)\n\nprint(\"py: fib(10) = \" + str(fib(10)))\nprint(\"py: sum fib(0..9) = \" + str(total))\n";

/// The sample program of a language.
pub fn demo_source(lang: Lang) -> (s: &'static str)
    ensures
        lang == Lang::Js ==> s@ == DEMO_JS@,
        lang == Lang::Ts ==> s@ == DEMO_TS@,
        lang == Lang::Python ==> s@ == DEMO_PY@,
{
    match lang {
        Lang::Js => DEMO_JS,
        Lang::Ts => DEMO_TS,
        Lang::Python => DEMO_PY,
    }
}

} // verus!

