//! The token classifier: one tagged syntax node from the external grammar
//! becomes one typed instruction, or fails with an "invalid token" error
//! carrying the node's matched text.
//!
//! The grammar itself is an external collaborator: it splits raw source
//! text into nodes, each carrying a rule tag, its matched text, and its
//! sub-nodes. This module only consumes that output; it never re-specifies
//! lexical scanning.

use vstd::prelude::*;

verus! {

/// A rule tag of the external grammar, as the classifier distinguishes
/// them. `Tokens` is the root rule; `Name` tags the identifier sub-node of
/// a reserved-keyword form.
#[derive(Clone, Copy, Debug, PartialEq, Eq, Structural)]
pub enum Rule {
    Tokens,
    Float,
    Int,
    Char,
    Operator,
    Add,
    Sub,
    Mul,
    Div,
    Inp,
    Print,
    Debugprint,
    Dup,
    Swp,
    Ovr,
    Rot,
    Store,
    Retrieve,
    ReservedKeyword,
    Variable,
    Constant,
    Keyword,
    Name,
}

/// One classified syntax node from the external grammar: a rule tag, the
/// matched source text, and the sub-nodes the rule matched in order.
#[derive(Debug)]
pub struct SyntaxNode {
    pub rule: Rule,
    pub text: String,
    pub children: Vec<SyntaxNode>,
}

/// An operator instruction kind.
#[derive(Clone, Copy, Debug, PartialEq, Eq, Structural)]
pub enum Func {
    Add,
    Sub,
    Mul,
    Div,
    Print,
    Input,
    DPrint,
    Dup,
    Swap,
    Over,
    Rotate,
    Store,
    Retrieve,
}

/// A reserved-keyword declaration, carrying the identifier to bind.
#[derive(Debug)]
pub enum Reserved {
    Variable(String),
    Constant(String),
}

/// One typed instruction.
#[derive(Debug)]
pub enum Token {
    Int(i32),
    Char(char),
    Func(Func),
    Reserved(Reserved),
    Keyword(String),
}

/// The mathematical model of a `Reserved` declaration.
pub enum ReservedV {
    Variable(Seq<char>),
    Constant(Seq<char>),
}

/// The mathematical model of a `Token`: identifier text as a character
/// sequence.
pub enum TokenV {
    Int(i32),
    Char(char),
    Func(Func),
    Reserved(ReservedV),
    Keyword(Seq<char>),
}

impl View for Reserved {
    type V = ReservedV;

    open spec fn view(&self) -> ReservedV {
        match self {
            Reserved::Variable(name) => ReservedV::Variable(name@),
            Reserved::Constant(name) => ReservedV::Constant(name@),
        }
    }
}

impl View for Token {
    type V = TokenV;

    open spec fn view(&self) -> TokenV {
        match self {
            Token::Int(x) => TokenV::Int(*x),
            Token::Char(c) => TokenV::Char(*c),
            Token::Func(f) => TokenV::Func(*f),
            Token::Reserved(r) => TokenV::Reserved(r@),
            Token::Keyword(w) => TokenV::Keyword(w@),
        }
    }
}

/// Failure of the classifier, carrying the offending node's matched text.
#[derive(Debug)]
pub enum ParseError {
    InvalidToken(String),
}

impl View for ParseError {
    type V = Seq<char>;

    open spec fn view(&self) -> Seq<char> {
        match self {
            ParseError::InvalidToken(s) => s@,
        }
    }
}

/// Whether `c` is a decimal digit.
pub open spec fn is_digit(c: char) -> bool {
    '0' <= c && c <= '9'
}

/// The numeric value of a digit character.
pub open spec fn digit_val(c: char) -> int
    recommends
        is_digit(c),
{
    c as int - '0' as int
}

/// Whether every character of `s` is a decimal digit.
pub open spec fn all_digits(s: Seq<char>) -> bool {
    forall|i: int| 0 <= i < s.len() ==> is_digit(#[trigger] s[i])
}

/// The value of a digit string read in base ten.
pub open spec fn dec_val(s: Seq<char>) -> int
    decreases s.len(),
{
    if s.len() == 0 {
        0
    } else {
        dec_val(s.drop_last()) * 10 + digit_val(s.last())
    }
}

/// The sign an integer literal text denotes: `-1` under a leading minus,
/// else `1`.
pub open spec fn int_sign(s: Seq<char>) -> int {
    if s.len() >= 1 && s[0] == '-' {
        -1
    } else {
        1
    }
}

/// The digits of an integer literal text, with any leading sign removed.
pub open spec fn int_mag_digits(s: Seq<char>) -> Seq<char> {
    if s.len() >= 1 && (s[0] == '-' || s[0] == '+') {
        s.drop_first()
    } else {
        s
    }
}

/// The signed 32-bit integer an integer literal text denotes: an optional
/// sign, then one or more digits, with the value in range; anything else
/// denotes nothing.
pub open spec fn int_token_value(s: Seq<char>) -> Option<i32> {
    let mag = int_mag_digits(s);
    let v = int_sign(s) * dec_val(mag);
    if mag.len() >= 1 && all_digits(mag) && i32::MIN <= v && v <= i32::MAX {
        Some(v as i32)
    } else {
        None
    }
}

/// The character a character literal text denotes: after the leading quote
/// marker, either a single character, or the escape `\n` or `\t`; any
/// other residue denotes nothing.
pub open spec fn char_token_value(s: Seq<char>) -> Option<char> {
    if s.len() < 1 {
        None
    } else {
        let rest = s.drop_first();
        if rest.len() == 1 {
            Some(rest[0])
        } else if rest.len() == 2 && rest[0] == '\\' && rest[1] == 'n' {
            Some('\n')
        } else if rest.len() == 2 && rest[0] == '\\' && rest[1] == 't' {
            Some('\t')
        } else {
            None
        }
    }
}

/// A digit string's value never shrinks as digits are appended.
proof fn lemma_dec_val_nonneg(s: Seq<char>)
    requires
        all_digits(s),
    ensures
        dec_val(s) >= 0,
    decreases s.len(),
{
    if s.len() > 0 {
        lemma_dec_val_nonneg(s.drop_last());
    }
}

/// The value of a digit string is at least the value of any of its
/// prefixes.
proof fn lemma_dec_val_prefix(s: Seq<char>, i: int)
    requires
        all_digits(s),
        0 <= i <= s.len(),
    ensures
        dec_val(s.take(i)) <= dec_val(s),
    decreases s.len() - i,
{
    if i == s.len() {
        assert(s.take(i) =~= s);
    } else {
        lemma_dec_val_prefix(s, i + 1);
        assert(s.take(i + 1).drop_last() =~= s.take(i));
        assert(forall|j: int| 0 <= j < i ==> is_digit(#[trigger] s.take(i)[j]));
        lemma_dec_val_nonneg(s.take(i));
        assert(dec_val(s.take(i + 1)) == dec_val(s.take(i)) * 10 + digit_val(s[i]));
    }
}

/// Read an integer literal text as a signed 32-bit integer.
fn parse_int_text(s: &str) -> (r: Option<i32>)
    ensures
        r == int_token_value(s@),
{
    let n = s.unicode_len();
    let mut start: usize = 0;
    let mut negative: bool = false;
    if n >= 1 {
        let c0 = s.get_char(0);
        if c0 == '-' {
            negative = true;
            start = 1;
        } else if c0 == '+' {
            start = 1;
        }
    }
    let ghost mag = int_mag_digits(s@);
    proof {
        assert(mag =~= s@.subrange(start as int, n as int));
    }
    if start >= n {
        return None;
    }
    let mut acc: u64 = 0;
    let mut i: usize = start;
    while i < n
        invariant
            start <= i <= n,
            n == s@.len(),
            start == 0 || start == 1,
            mag == int_mag_digits(s@),
            mag == s@.subrange(start as int, n as int),
            all_digits(s@.subrange(start as int, i as int)),
            acc == dec_val(s@.subrange(start as int, i as int)),
            acc <= 0x8000_0000u64,
        decreases n - i,
    {
        let c = s.get_char(i);
        if !(c >= '0' && c <= '9') {
            proof {
                assert(mag[i - start] == c);
                assert(!is_digit(mag[i - start]));
                assert(!all_digits(mag));
                assert(int_token_value(s@) is None);
            }
            return None;
        }
        let ghost pre = s@.subrange(start as int, i as int);
        let d: u32 = (c as u32) - 48;
        proof {
            assert('0' as int == 48 && '9' as int == 57);
            assert(d <= 9);
            assert(digit_val(c) == d as int);
        }
        acc = acc * 10 + (d as u64);
        proof {
            assert(s@.subrange(start as int, (i + 1) as int) =~= pre.push(c));
            assert(pre.push(c).drop_last() =~= pre);
            assert(pre.push(c).last() == c);
            assert(all_digits(pre.push(c))) by {
                assert(forall|j: int|
                    0 <= j < pre.len() ==> #[trigger] pre.push(c)[j] == pre[j]);
                assert(pre.push(c)[pre.len() as int] == c);
            };
            assert(dec_val(pre.push(c)) == dec_val(pre) * 10 + digit_val(c));
        }
        i = i + 1;
        if acc > 0x8000_0000u64 {
            proof {
                assert(mag.take(i - start) =~= s@.subrange(start as int, i as int));
                assert(dec_val(mag.take(i - start)) == acc);
                if all_digits(mag) {
                    lemma_dec_val_prefix(mag, i - start);
                    assert(dec_val(mag) >= acc);
                    if int_sign(s@) == 1 {
                        assert(int_sign(s@) * dec_val(int_mag_digits(s@)) == dec_val(mag));
                    } else {
                        assert(int_sign(s@) == -1);
                        assert(int_sign(s@) * dec_val(int_mag_digits(s@)) == -dec_val(mag));
                    }
                }
                assert(int_token_value(s@) is None);
            }
            return None;
        }
    }
    proof {
        assert(s@.subrange(start as int, i as int) =~= mag);
        assert(mag.len() >= 1);
    }
    if negative {
        proof {
            assert(int_sign(s@) == -1);
            assert(int_sign(s@) * dec_val(mag) == -dec_val(mag));
        }
        let v: i64 = -(acc as i64);
        Some(v as i32)
    } else {
        proof {
            assert(int_sign(s@) == 1);
            assert(int_sign(s@) * dec_val(mag) == dec_val(mag));
        }
        if acc > 0x7FFF_FFFFu64 {
            proof {
                assert(int_token_value(s@) is None);
            }
            return None;
        }
        Some(acc as u32 as i32)
    }
}

/// Read a character literal text: strip the quote marker, resolve the
/// escapes `\n` and `\t`, and yield the single remaining character.
fn parse_char_text(s: &str) -> (r: Option<char>)
    ensures
        r == char_token_value(s@),
{
    let n = s.unicode_len();
    if n == 2 {
        let c = s.get_char(1);
        proof {
            assert(s@.drop_first()[0] == s@[1]);
            assert(s@.drop_first().len() == 1);
        }
        Some(c)
    } else if n == 3 {
        let c1 = s.get_char(1);
        let c2 = s.get_char(2);
        proof {
            assert(s@.drop_first()[0] == s@[1]);
            assert(s@.drop_first()[1] == s@[2]);
            assert(s@.drop_first().len() == 2);
        }
        if c1 == '\\' && c2 == 'n' {
            Some('\n')
        } else if c1 == '\\' && c2 == 't' {
            Some('\t')
        } else {
            None
        }
    } else {
        None
    }
}

/// The instruction a syntax node denotes, or the text of the node on which
/// classification fails.
pub open spec fn spec_classify(n: SyntaxNode) -> Result<TokenV, Seq<char>> {
    if n.children@.len() == 0 {
        Err(n.text@)
    } else {
        let inner = n.children@[0];
        match inner.rule {
            Rule::Int => match int_token_value(inner.text@) {
                Some(x) => Ok(TokenV::Int(x)),
                None => Err(n.text@),
            },
            Rule::Char => match char_token_value(inner.text@) {
                Some(c) => Ok(TokenV::Char(c)),
                None => Err(n.text@),
            },
            Rule::Operator => if inner.children@.len() == 0 {
                Err(n.text@)
            } else {
                match inner.children@[0].rule {
                    Rule::Add => Ok(TokenV::Func(Func::Add)),
                    Rule::Sub => Ok(TokenV::Func(Func::Sub)),
                    Rule::Mul => Ok(TokenV::Func(Func::Mul)),
                    Rule::Div => Ok(TokenV::Func(Func::Div)),
                    Rule::Inp => Ok(TokenV::Func(Func::Input)),
                    Rule::Print => Ok(TokenV::Func(Func::Print)),
                    Rule::Debugprint => Ok(TokenV::Func(Func::DPrint)),
                    Rule::Dup => Ok(TokenV::Func(Func::Dup)),
                    Rule::Swp => Ok(TokenV::Func(Func::Swap)),
                    Rule::Ovr => Ok(TokenV::Func(Func::Over)),
                    Rule::Rot => Ok(TokenV::Func(Func::Rotate)),
                    Rule::Store => Ok(TokenV::Func(Func::Store)),
                    Rule::Retrieve => Ok(TokenV::Func(Func::Retrieve)),
                    _ => Err(n.text@),
                }
            },
            Rule::ReservedKeyword => if inner.children@.len() == 0 {
                Err(n.text@)
            } else {
                let kw = inner.children@[0];
                match kw.rule {
                    Rule::Variable => if kw.children@.len() == 0 {
                        Err(n.text@)
                    } else {
                        Ok(TokenV::Reserved(ReservedV::Variable(kw.children@[0].text@)))
                    },
                    Rule::Constant => if kw.children@.len() == 0 {
                        Err(n.text@)
                    } else {
                        Ok(TokenV::Reserved(ReservedV::Constant(kw.children@[0].text@)))
                    },
                    _ => Err(n.text@),
                }
            },
            Rule::Keyword => Ok(TokenV::Keyword(inner.text@)),
            _ => Err(n.text@),
        }
    }
}

/// Classify one syntax node into one typed instruction, or fail with
/// "invalid token" carrying the node's matched text. Float literal nodes
/// are reserved but unsupported, and fail like any unrecognised node.
pub fn parse_token(node: &SyntaxNode) -> (r: Result<Token, ParseError>)
    ensures
        match spec_classify(*node) {
            Ok(tv) => r matches Ok(t) && t@ == tv,
            Err(txt) => r matches Err(e) && e@ == txt,
        },
{
    if node.children.len() == 0 {
        return Err(ParseError::InvalidToken(node.text.clone()));
    }
    let inner = &node.children[0];
    match inner.rule {
        Rule::Int => {
            match parse_int_text(inner.text.as_str()) {
                Some(x) => Ok(Token::Int(x)),
                None => Err(ParseError::InvalidToken(node.text.clone())),
            }
        },
        Rule::Char => {
            match parse_char_text(inner.text.as_str()) {
                Some(c) => Ok(Token::Char(c)),
                None => Err(ParseError::InvalidToken(node.text.clone())),
            }
        },
        Rule::Operator => {
            if inner.children.len() == 0 {
                return Err(ParseError::InvalidToken(node.text.clone()));
            }
            match inner.children[0].rule {
                Rule::Add => Ok(Token::Func(Func::Add)),
                Rule::Sub => Ok(Token::Func(Func::Sub)),
                Rule::Mul => Ok(Token::Func(Func::Mul)),
                Rule::Div => Ok(Token::Func(Func::Div)),
                Rule::Inp => Ok(Token::Func(Func::Input)),
                Rule::Print => Ok(Token::Func(Func::Print)),
                Rule::Debugprint => Ok(Token::Func(Func::DPrint)),
                Rule::Dup => Ok(Token::Func(Func::Dup)),
                Rule::Swp => Ok(Token::Func(Func::Swap)),
                Rule::Ovr => Ok(Token::Func(Func::Over)),
                Rule::Rot => Ok(Token::Func(Func::Rotate)),
                Rule::Store => Ok(Token::Func(Func::Store)),
                Rule::Retrieve => Ok(Token::Func(Func::Retrieve)),
                _ => Err(ParseError::InvalidToken(node.text.clone())),
            }
        },
        Rule::ReservedKeyword => {
            if inner.children.len() == 0 {
                return Err(ParseError::InvalidToken(node.text.clone()));
            }
            let kw = &inner.children[0];
            match kw.rule {
                Rule::Variable => {
                    if kw.children.len() == 0 {
                        Err(ParseError::InvalidToken(node.text.clone()))
                    } else {
                        Ok(Token::Reserved(Reserved::Variable(kw.children[0].text.clone())))
                    }
                },
                Rule::Constant => {
                    if kw.children.len() == 0 {
                        Err(ParseError::InvalidToken(node.text.clone()))
                    } else {
                        Ok(Token::Reserved(Reserved::Constant(kw.children[0].text.clone())))
                    }
                },
                _ => Err(ParseError::InvalidToken(node.text.clone())),
            }
        },
        Rule::Keyword => Ok(Token::Keyword(inner.text.clone())),
        _ => Err(ParseError::InvalidToken(node.text.clone())),
    }
}

/// Classify a whole sequence of syntax nodes in order, stopping at the
/// first node that fails.
pub fn parse_tokens(nodes: &Vec<SyntaxNode>) -> (r: Result<Vec<Token>, ParseError>)
    ensures
        match r {
            Ok(ts) => ts@.len() == nodes@.len() && forall|i: int|
                0 <= i < nodes@.len() ==> #[trigger] spec_classify(nodes@[i]) == Ok::<
                    TokenV,
                    Seq<char>,
                >(ts@[i]@),
            Err(e) => exists|i: int|
                0 <= i < nodes@.len() && #[trigger] spec_classify(nodes@[i]) == Err::<
                    TokenV,
                    Seq<char>,
                >(e@) && forall|j: int| 0 <= j < i ==> spec_classify(nodes@[j]) is Ok,
        },
{
    let mut out: Vec<Token> = Vec::new();
    let mut i: usize = 0;
    while i < nodes.len()
        invariant
            i <= nodes.len(),
            out@.len() == i,
            forall|j: int|
                0 <= j < i as int ==> #[trigger] spec_classify(nodes@[j]) == Ok::<
                    TokenV,
                    Seq<char>,
                >(out@[j]@),
        decreases nodes.len() - i,
    {
        match parse_token(&nodes[i]) {
            Ok(t) => {
                out.push(t);
            },
            Err(e) => {
                proof {
                    assert(spec_classify(nodes@[i as int]) == Err::<TokenV, Seq<char>>(e@));
                }
                return Err(e);
            },
        }
        i = i + 1;
    }
    Ok(out)
}

} // verus!
