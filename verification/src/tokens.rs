//! Token trees: the flat model of a token stream, the removal of
//! documentation attributes from it, and its spelling as source text.

use vstd::prelude::*;
use crate::text::append;
use crate::text::chars_of;
use crate::text::same_text;

verus! {

/// The brackets that can enclose a group of tokens. `Invisible` encloses a
/// group that has no brackets in the text.
#[derive(Clone, Copy, Debug, PartialEq, Eq, Structural)]
pub enum Enclosure {
    Parenthesis,
    Brace,
    Bracket,
    Invisible,
}

/// What a token is. A group is written as its opening token, its contents
/// and its closing token.
#[derive(Clone, Copy, Debug, PartialEq, Eq, Structural)]
pub enum TokenKind {
    Open(Enclosure),
    Close(Enclosure),
    Ident,
    Punct,
    Literal,
}

/// One token of a flattened token tree. `text` is empty for the two ends of a
/// group; `joint` marks a punctuation character that is glued to the next
/// token.
#[derive(Debug)]
pub struct Token {
    pub kind: TokenKind,
    pub text: Vec<char>,
    pub joint: bool,
}

/// The mathematical value of a `Token`.
pub struct TokenModel {
    pub kind: TokenKind,
    pub text: Seq<char>,
    pub joint: bool,
}

impl View for Token {
    type V = TokenModel;

    open spec fn view(&self) -> TokenModel {
        TokenModel { kind: self.kind, text: self.text@, joint: self.joint }
    }
}

/// The values of a run of tokens.
pub open spec fn models(tokens: Seq<Token>) -> Seq<TokenModel> {
    tokens.map_values(|t: Token| t@)
}

impl Token {
    /// The opening end of a group.
    pub fn open(delimiter: Enclosure) -> (token: Token)
        ensures
            token@ == (TokenModel {
                kind: TokenKind::Open(delimiter),
                text: Seq::empty(),
                joint: false,
            }),
    {
        Token { kind: TokenKind::Open(delimiter), text: Vec::new(), joint: false }
    }

    /// The closing end of a group.
    pub fn close(delimiter: Enclosure) -> (token: Token)
        ensures
            token@ == (TokenModel {
                kind: TokenKind::Close(delimiter),
                text: Seq::empty(),
                joint: false,
            }),
    {
        Token { kind: TokenKind::Close(delimiter), text: Vec::new(), joint: false }
    }

    /// An identifier, a lifetime name or a keyword.
    pub fn ident(text: &str) -> (token: Token)
        ensures
            token@ == (TokenModel { kind: TokenKind::Ident, text: text@, joint: false }),
    {
        Token { kind: TokenKind::Ident, text: chars_of(text), joint: false }
    }

    /// A punctuation character.
    pub fn punct(c: char, joint: bool) -> (token: Token)
        ensures
            token@ == (TokenModel { kind: TokenKind::Punct, text: seq![c], joint }),
    {
        let mut text: Vec<char> = Vec::new();
        text.push(c);
        assert(text@ =~= seq![c]);
        Token { kind: TokenKind::Punct, text, joint }
    }

    /// A literal, as it is written.
    pub fn literal(text: &str) -> (token: Token)
        ensures
            token@ == (TokenModel { kind: TokenKind::Literal, text: text@, joint: false }),
    {
        Token { kind: TokenKind::Literal, text: chars_of(text), joint: false }
    }

    /// A copy of this token.
    pub fn duplicate(&self) -> (token: Token)
        ensures
            token@ == self@,
    {
        let mut text: Vec<char> = Vec::new();
        append(&mut text, &self.text);
        assert(text@ =~= self.text@);
        Token { kind: self.kind, text, joint: self.joint }
    }
}

/// Whether `t` is the punctuation character `c`.
pub open spec fn is_punct(t: TokenModel, c: char) -> bool {
    t.kind == TokenKind::Punct && t.text == seq![c]
}

/// Where the bracket of an attribute opens, if an attribute starts at `i`:
/// after `#`, or after `#` and `!`. `-1` where none starts there.
pub open spec fn attribute_bracket(tokens: Seq<TokenModel>, i: int) -> int {
    if 0 <= i < tokens.len() && is_punct(tokens[i], '#') {
        if i + 1 < tokens.len() && tokens[i + 1].kind == TokenKind::Open(Enclosure::Bracket) {
            i + 1
        } else if i + 2 < tokens.len() && is_punct(tokens[i + 1], '!') && tokens[i + 2].kind
            == TokenKind::Open(Enclosure::Bracket) {
            i + 2
        } else {
            -1
        }
    } else {
        -1
    }
}

/// Whether a documentation attribute starts at `i`: an attribute whose
/// bracket opens with the identifier `doc`.
pub open spec fn doc_attribute_at(tokens: Seq<TokenModel>, i: int) -> bool {
    let bracket = attribute_bracket(tokens, i);
    bracket >= 0 && bracket + 1 < tokens.len() && tokens[bracket + 1].kind == TokenKind::Ident
        && tokens[bracket + 1].text == seq!['d', 'o', 'c']
}

/// The position after the closing token that ends the group in which `from`
/// lies, `depth` groups having been opened since; the end of the tokens where
/// none closes it.
pub open spec fn group_end(tokens: Seq<TokenModel>, from: int, depth: nat) -> int
    decreases tokens.len() - from,
{
    if from < 0 || from >= tokens.len() {
        tokens.len() as int
    } else {
        match tokens[from].kind {
            TokenKind::Open(_) => group_end(tokens, from + 1, depth + 1),
            TokenKind::Close(_) => if depth == 0 {
                from + 1
            } else {
                group_end(tokens, from + 1, (depth - 1) as nat)
            },
            _ => group_end(tokens, from + 1, depth),
        }
    }
}

/// The position after the documentation attribute that starts at `i`.
pub open spec fn doc_attribute_end(tokens: Seq<TokenModel>, i: int) -> int {
    group_end(tokens, attribute_bracket(tokens, i) + 1, 0)
}

/// Whether `text` is a word that the language keeps for itself and that
/// cannot end a path: a keyword other than `self`, `Self`, `super`, `crate`
/// and `try`.
pub open spec fn reserved_word(text: Seq<char>) -> bool {
    text == "_"@
        || text == "abstract"@
        || text == "as"@
        || text == "async"@
        || text == "await"@
        || text == "become"@
        || text == "box"@
        || text == "break"@
        || text == "const"@
        || text == "continue"@
        || text == "do"@
        || text == "dyn"@
        || text == "else"@
        || text == "enum"@
        || text == "extern"@
        || text == "false"@
        || text == "final"@
        || text == "fn"@
        || text == "for"@
        || text == "if"@
        || text == "impl"@
        || text == "in"@
        || text == "let"@
        || text == "loop"@
        || text == "macro"@
        || text == "match"@
        || text == "mod"@
        || text == "move"@
        || text == "mut"@
        || text == "override"@
        || text == "priv"@
        || text == "pub"@
        || text == "ref"@
        || text == "return"@
        || text == "static"@
        || text == "struct"@
        || text == "trait"@
        || text == "true"@
        || text == "type"@
        || text == "typeof"@
        || text == "unsafe"@
        || text == "unsized"@
        || text == "use"@
        || text == "virtual"@
        || text == "where"@
        || text == "while"@
        || text == "yield"@
}

/// Whether the token at `k` can name a macro: an identifier that is no
/// reserved word and not the name of a lifetime.
pub open spec fn names_macro(tokens: Seq<TokenModel>, k: int) -> bool {
    &&& 0 <= k < tokens.len()
    &&& tokens[k].kind == TokenKind::Ident
    &&& !reserved_word(tokens[k].text)
    &&& !(k >= 1 && is_punct(tokens[k - 1], '\''))
}

/// Whether the group that opens at `i` holds the tokens handed to a macro:
/// it follows the name of a macro and `!`, with or without a name for what
/// the macro defines between them.
pub open spec fn macro_group_at(tokens: Seq<TokenModel>, i: int) -> bool {
    &&& 0 <= i < tokens.len()
    &&& tokens[i].kind is Open
    &&& tokens[i].kind != TokenKind::Open(Enclosure::Invisible)
    &&& (i >= 2 && is_punct(tokens[i - 1], '!') && names_macro(tokens, i - 2)) || (i >= 3
        && tokens[i - 1].kind == TokenKind::Ident && is_punct(tokens[i - 2], '!') && names_macro(
        tokens,
        i - 3,
    ))
}

/// Whether the bracket that opens at `i` is that of an attribute: it
/// follows `#`, or `#` and `!`.
pub open spec fn attribute_group_at(tokens: Seq<TokenModel>, i: int) -> bool {
    &&& 0 <= i < tokens.len()
    &&& tokens[i].kind == TokenKind::Open(Enclosure::Bracket)
    &&& (i >= 1 && is_punct(tokens[i - 1], '#')) || (i >= 2 && is_punct(tokens[i - 1], '!')
        && is_punct(tokens[i - 2], '#'))
}

/// Whether the group that opens at `i` is closed to the search for
/// documentation: what a macro is handed and what an attribute holds are
/// plain tokens, in which nothing is an attribute of an item or a field.
pub open spec fn closed_group_at(tokens: Seq<TokenModel>, i: int) -> bool {
    macro_group_at(tokens, i) || attribute_group_at(tokens, i)
}

/// The tokens from `i` on, without the documentation attributes among
/// them, at whatever depth they stand, but for the groups that are closed to
/// the search: those are kept whole.
pub open spec fn without_docs_from(tokens: Seq<TokenModel>, i: int) -> Seq<TokenModel>
    decreases tokens.len() - i,
{
    if i < 0 || i >= tokens.len() {
        Seq::empty()
    } else if doc_attribute_at(tokens, i) {
        let end = doc_attribute_end(tokens, i);
        if i < end <= tokens.len() {
            without_docs_from(tokens, end)
        } else {
            Seq::empty()
        }
    } else if closed_group_at(tokens, i) {
        let end = group_end(tokens, i + 1, 0);
        if i < end <= tokens.len() {
            tokens.subrange(i, end) + without_docs_from(tokens, end)
        } else {
            Seq::empty()
        }
    } else {
        seq![tokens[i]] + without_docs_from(tokens, i + 1)
    }
}

/// The tokens without their documentation attributes.
pub open spec fn without_docs(tokens: Seq<TokenModel>) -> Seq<TokenModel> {
    without_docs_from(tokens, 0)
}

/// A group ends after the place where the search for its end began, and
/// within the tokens.
pub proof fn group_end_bounds(tokens: Seq<TokenModel>, from: int, depth: nat)
    requires
        0 <= from <= tokens.len(),
    ensures
        from <= group_end(tokens, from, depth) <= tokens.len(),
        from < tokens.len() ==> from < group_end(tokens, from, depth),
    decreases tokens.len() - from,
{
    if from < tokens.len() {
        match tokens[from].kind {
            TokenKind::Open(_) => group_end_bounds(tokens, from + 1, depth + 1),
            TokenKind::Close(_) => if depth > 0 {
                group_end_bounds(tokens, from + 1, (depth - 1) as nat)
            },
            _ => group_end_bounds(tokens, from + 1, depth),
        }
    }
}

/// Whether `token` is the punctuation character `c`.
pub fn token_is_punct(token: &Token, c: char) -> (yes: bool)
    ensures
        yes == is_punct(token@, c),
{
    let yes = match token.kind {
        TokenKind::Punct => token.text.len() == 1 && token.text[0] == c,
        _ => false,
    };
    proof {
        if yes {
            assert(token.text@ =~= seq![c]);
        } else if token.kind == TokenKind::Punct {
            assert(seq![c].len() == 1);
            assert(seq![c][0] == c);
        }
    }
    yes
}

/// Whether `token` opens a bracket group.
fn opens_bracket(token: &Token) -> (yes: bool)
    ensures
        yes == (token@.kind == TokenKind::Open(Enclosure::Bracket)),
{
    match token.kind {
        TokenKind::Open(Enclosure::Bracket) => true,
        _ => false,
    }
}

/// Where the bracket of an attribute that starts at `i` opens.
fn find_attribute_bracket(tokens: &Vec<Token>, i: usize) -> (bracket: Option<usize>)
    requires
        i < tokens.len(),
    ensures
        match bracket {
            Some(at) => at == attribute_bracket(models(tokens@), i as int),
            None => attribute_bracket(models(tokens@), i as int) == -1,
        },
{
    let n = tokens.len();
    if !token_is_punct(&tokens[i], '#') {
        return None;
    }
    if n - i > 1 && opens_bracket(&tokens[i + 1]) {
        return Some(i + 1);
    }
    if n - i > 2 && token_is_punct(&tokens[i + 1], '!') && opens_bracket(&tokens[i + 2]) {
        return Some(i + 2);
    }
    None
}

/// Whether `token` is the identifier `doc`.
fn names_doc(token: &Token) -> (yes: bool)
    ensures
        yes == (token@.kind == TokenKind::Ident && token@.text == seq!['d', 'o', 'c']),
{
    let yes = match token.kind {
        TokenKind::Ident => token.text.len() == 3 && token.text[0] == 'd' && token.text[1] == 'o'
            && token.text[2] == 'c',
        _ => false,
    };
    proof {
        let doc = seq!['d', 'o', 'c'];
        if yes {
            assert(token.text@ =~= doc);
        } else if token.kind == TokenKind::Ident {
            assert(doc.len() == 3 && doc[0] == 'd' && doc[1] == 'o' && doc[2] == 'c');
        }
    }
    yes
}

/// The position after the closing token of the group whose contents start at
/// `from`.
fn find_group_end(tokens: &Vec<Token>, from: usize) -> (end: usize)
    requires
        from <= tokens.len(),
    ensures
        end == group_end(models(tokens@), from as int, 0),
        from <= end <= tokens.len(),
{
    let ghost all = models(tokens@);
    let mut at: usize = from;
    let mut depth: usize = 0;
    proof {
        group_end_bounds(all, from as int, 0);
    }
    while at < tokens.len()
        invariant
            from <= at <= tokens.len(),
            depth <= at - from,
            all == models(tokens@),
            group_end(all, from as int, 0) == group_end(all, at as int, depth as nat),
        decreases tokens.len() - at,
    {
        match tokens[at].kind {
            TokenKind::Open(_) => {
                depth += 1;
            },
            TokenKind::Close(_) => {
                if depth == 0 {
                    return at + 1;
                }
                depth -= 1;
            },
            _ => {},
        }
        at += 1;
    }
    at
}

/// Removing documentation never adds a token, and where it takes none
/// away, the tokens are what they were.
pub proof fn without_docs_length(tokens: Seq<TokenModel>, i: int)
    requires
        0 <= i <= tokens.len(),
    ensures
        without_docs_from(tokens, i).len() <= tokens.len() - i,
        without_docs_from(tokens, i).len() == tokens.len() - i ==> without_docs_from(tokens, i)
            == tokens.skip(i),
    decreases tokens.len() - i,
{
    if i < tokens.len() {
        if doc_attribute_at(tokens, i) {
            let end = doc_attribute_end(tokens, i);
            if i < end <= tokens.len() {
                without_docs_length(tokens, end);
            }
        } else if closed_group_at(tokens, i) {
            let end = group_end(tokens, i + 1, 0);
            if i < end <= tokens.len() {
                without_docs_length(tokens, end);
                if without_docs_from(tokens, i).len() == tokens.len() - i {
                    assert(tokens.subrange(i, end) + tokens.skip(end) =~= tokens.skip(i));
                }
            }
        } else {
            without_docs_length(tokens, i + 1);
            if without_docs_from(tokens, i).len() == tokens.len() - i {
                assert(seq![tokens[i]] + tokens.skip(i + 1) =~= tokens.skip(i));
            }
        }
    } else {
        assert(tokens.skip(i) =~= Seq::<TokenModel>::empty());
    }
}

/// Whether `text` is a reserved word.
pub fn is_reserved(text: &Vec<char>) -> (yes: bool)
    ensures
        yes == reserved_word(text@),
{
    same_text(text, &chars_of("_"))
        || same_text(text, &chars_of("abstract"))
        || same_text(text, &chars_of("as"))
        || same_text(text, &chars_of("async"))
        || same_text(text, &chars_of("await"))
        || same_text(text, &chars_of("become"))
        || same_text(text, &chars_of("box"))
        || same_text(text, &chars_of("break"))
        || same_text(text, &chars_of("const"))
        || same_text(text, &chars_of("continue"))
        || same_text(text, &chars_of("do"))
        || same_text(text, &chars_of("dyn"))
        || same_text(text, &chars_of("else"))
        || same_text(text, &chars_of("enum"))
        || same_text(text, &chars_of("extern"))
        || same_text(text, &chars_of("false"))
        || same_text(text, &chars_of("final"))
        || same_text(text, &chars_of("fn"))
        || same_text(text, &chars_of("for"))
        || same_text(text, &chars_of("if"))
        || same_text(text, &chars_of("impl"))
        || same_text(text, &chars_of("in"))
        || same_text(text, &chars_of("let"))
        || same_text(text, &chars_of("loop"))
        || same_text(text, &chars_of("macro"))
        || same_text(text, &chars_of("match"))
        || same_text(text, &chars_of("mod"))
        || same_text(text, &chars_of("move"))
        || same_text(text, &chars_of("mut"))
        || same_text(text, &chars_of("override"))
        || same_text(text, &chars_of("priv"))
        || same_text(text, &chars_of("pub"))
        || same_text(text, &chars_of("ref"))
        || same_text(text, &chars_of("return"))
        || same_text(text, &chars_of("static"))
        || same_text(text, &chars_of("struct"))
        || same_text(text, &chars_of("trait"))
        || same_text(text, &chars_of("true"))
        || same_text(text, &chars_of("type"))
        || same_text(text, &chars_of("typeof"))
        || same_text(text, &chars_of("unsafe"))
        || same_text(text, &chars_of("unsized"))
        || same_text(text, &chars_of("use"))
        || same_text(text, &chars_of("virtual"))
        || same_text(text, &chars_of("where"))
        || same_text(text, &chars_of("while"))
        || same_text(text, &chars_of("yield"))
}

/// Whether the token at `k` can name a macro.
fn token_names_macro(tokens: &Vec<Token>, k: usize) -> (yes: bool)
    requires
        k < tokens.len(),
    ensures
        yes == names_macro(models(tokens@), k as int),
{
    match tokens[k].kind {
        TokenKind::Ident => {
            if is_reserved(&tokens[k].text) {
                false
            } else if k >= 1 {
                !token_is_punct(&tokens[k - 1], '\'')
            } else {
                true
            }
        },
        _ => false,
    }
}

/// Whether the group that opens at `i` is closed to the search for
/// documentation.
fn is_closed_group(tokens: &Vec<Token>, i: usize) -> (yes: bool)
    requires
        i < tokens.len(),
    ensures
        yes == closed_group_at(models(tokens@), i as int),
{
    let (opens, bracket, visible) = match tokens[i].kind {
        TokenKind::Open(Enclosure::Bracket) => (true, true, true),
        TokenKind::Open(Enclosure::Invisible) => (true, false, false),
        TokenKind::Open(_) => (true, false, true),
        _ => (false, false, false),
    };
    if !opens {
        return false;
    }
    let attribute = bracket && ((i >= 1 && token_is_punct(&tokens[i - 1], '#')) || (i >= 2
        && token_is_punct(&tokens[i - 1], '!') && token_is_punct(&tokens[i - 2], '#')));
    if attribute {
        return true;
    }
    if !visible {
        return false;
    }
    let plain = i >= 2 && token_is_punct(&tokens[i - 1], '!') && token_names_macro(tokens, i - 2);
    if plain {
        return true;
    }
    if i >= 3 {
        let is_name = match tokens[i - 1].kind {
            TokenKind::Ident => true,
            _ => false,
        };
        is_name && token_is_punct(&tokens[i - 2], '!') && token_names_macro(tokens, i - 3)
    } else {
        false
    }
}

/// Removes the documentation attributes: every `#` or `#!` followed by a
/// bracket group that opens with `doc`, inside groups as well as outside.
/// The tokens handed to a macro and the tokens inside another attribute are
/// left as they are.
pub fn strip_docs(tokens: &Vec<Token>) -> (out: Vec<Token>)
    ensures
        models(out@) == without_docs(models(tokens@)),
        out.len() <= tokens.len(),
        out.len() == tokens.len() <==> without_docs(models(tokens@)) == models(tokens@),
{
    let ghost all = models(tokens@);
    let mut out: Vec<Token> = Vec::new();
    let mut i: usize = 0;
    assert(models(out@) =~= Seq::<TokenModel>::empty());
    while i < tokens.len()
        invariant
            i <= tokens.len(),
            all == models(tokens@),
            models(out@) + without_docs_from(all, i as int) == without_docs(all),
        decreases tokens.len() - i,
    {
        let mut skip_to: Option<usize> = None;
        match find_attribute_bracket(tokens, i) {
            Some(bracket) => {
                if tokens.len() - bracket > 1 && names_doc(&tokens[bracket + 1]) {
                    let end = find_group_end(tokens, bracket + 1);
                    proof {
                        group_end_bounds(all, bracket + 1, 0);
                    }
                    skip_to = Some(end);
                }
            },
            None => {},
        }
        match skip_to {
            Some(end) => {
                assert(doc_attribute_at(all, i as int));
                i = end;
            },
            None => {
                assert(!doc_attribute_at(all, i as int));
                let ghost before = models(out@);
                let stop = if is_closed_group(tokens, i) {
                    proof {
                        group_end_bounds(all, i + 1, 0);
                    }
                    find_group_end(tokens, i + 1)
                } else {
                    i + 1
                };
                let ghost rest = without_docs_from(all, stop as int);
                assert(without_docs_from(all, i as int) =~= all.subrange(i as int, stop as int)
                    + rest);
                let mut k: usize = i;
                while k < stop
                    invariant
                        i <= k <= stop <= tokens.len(),
                        all == models(tokens@),
                        models(out@) == before + all.subrange(i as int, k as int),
                    decreases stop - k,
                {
                    let ghost so_far = models(out@);
                    out.push(tokens[k].duplicate());
                    assert(models(out@) =~= so_far.push(all[k as int]));
                    k += 1;
                    assert(before + all.subrange(i as int, k as int) =~= (before + all.subrange(
                        i as int,
                        k - 1,
                    )).push(all[k - 1]));
                }
                assert(before + (all.subrange(i as int, stop as int) + rest) =~= (before
                    + all.subrange(i as int, stop as int)) + rest);
                i = stop;
            },
        }
    }
    assert(models(out@) + Seq::<TokenModel>::empty() =~= models(out@));
    proof {
        without_docs_length(all, 0);
        assert(all.skip(0) =~= all);
        assert(models(out@).len() == out.len());
        assert(all.len() == tokens.len());
    }
    out
}

/// How the opening end of a group is written.
pub open spec fn open_text(delimiter: Enclosure) -> Seq<char> {
    match delimiter {
        Enclosure::Parenthesis => seq!['('],
        Enclosure::Brace => seq!['{'],
        Enclosure::Bracket => seq!['['],
        Enclosure::Invisible => Seq::empty(),
    }
}

/// How the closing end of a group is written.
pub open spec fn close_text(delimiter: Enclosure) -> Seq<char> {
    match delimiter {
        Enclosure::Parenthesis => seq![')'],
        Enclosure::Brace => seq!['}'],
        Enclosure::Bracket => seq![']'],
        Enclosure::Invisible => Seq::empty(),
    }
}

/// How one token is written, with the space that parts it from the next
/// unless it is glued to it.
pub open spec fn spelling(token: TokenModel) -> Seq<char> {
    let word = match token.kind {
        TokenKind::Open(delimiter) => open_text(delimiter),
        TokenKind::Close(delimiter) => close_text(delimiter),
        _ => token.text,
    };
    if token.joint {
        word
    } else {
        word + seq![' ']
    }
}

/// The tokens from `i` on, written one after the other.
pub open spec fn spelled_from(tokens: Seq<TokenModel>, i: int) -> Seq<char>
    decreases tokens.len() - i,
{
    if i < 0 || i >= tokens.len() {
        Seq::empty()
    } else {
        spelling(tokens[i]) + spelled_from(tokens, i + 1)
    }
}

/// Source text that spells the tokens.
pub open spec fn spelled(tokens: Seq<TokenModel>) -> Seq<char> {
    spelled_from(tokens, 0)
}

/// Appends the way `token` is written to `out`.
fn spell_token(out: &mut Vec<char>, token: &Token)
    ensures
        final(out)@ == old(out)@ + spelling(token@),
{
    match token.kind {
        TokenKind::Open(delimiter) => {
            match delimiter {
                Enclosure::Parenthesis => out.push('('),
                Enclosure::Brace => out.push('{'),
                Enclosure::Bracket => out.push('['),
                Enclosure::Invisible => {},
            }
        },
        TokenKind::Close(delimiter) => {
            match delimiter {
                Enclosure::Parenthesis => out.push(')'),
                Enclosure::Brace => out.push('}'),
                Enclosure::Bracket => out.push(']'),
                Enclosure::Invisible => {},
            }
        },
        _ => {
            append(out, &token.text);
        },
    }
    if !token.joint {
        out.push(' ');
    }
    assert(out@ =~= old(out)@ + spelling(token@));
}

/// Writes the tokens as source text: each token as it is written, a space
/// after each but a glued punctuation character.
pub fn spell(tokens: &Vec<Token>) -> (out: Vec<char>)
    ensures
        out@ == spelled(models(tokens@)),
{
    let ghost all = models(tokens@);
    let mut out: Vec<char> = Vec::new();
    let mut i: usize = 0;
    while i < tokens.len()
        invariant
            i <= tokens.len(),
            all == models(tokens@),
            out@ + spelled_from(all, i as int) == spelled(all),
        decreases tokens.len() - i,
    {
        let ghost before = out@;
        spell_token(&mut out, &tokens[i]);
        assert(before + (spelling(all[i as int]) + spelled_from(all, i + 1)) =~= (before
            + spelling(all[i as int])) + spelled_from(all, i + 1));
        i += 1;
    }
    assert(out@ + Seq::<char>::empty() =~= out@);
    out
}

/// Where the reading of a list of macro rules stands: before a rule, after
/// its matcher, after the `=` and after the `>` of its arrow, after its
/// expander.
#[derive(Clone, Copy, Debug, PartialEq, Eq, Structural)]
pub enum RuleState {
    Start,
    Matcher,
    Equal,
    Greater,
    Expander,
}

/// Whether the tokens from `i` up to the end of their group go on a list of
/// macro rules that has been read up to `state`: each rule is a group, `=>`,
/// a group, and a `;` parts it from the next.
pub open spec fn rules_from(tokens: Seq<TokenModel>, i: int, state: RuleState) -> bool
    decreases tokens.len() - i,
{
    if i < 0 || i >= tokens.len() {
        true
    } else {
        match tokens[i].kind {
            TokenKind::Close(_) => true,
            TokenKind::Open(_) => {
                let end = group_end(tokens, i + 1, 0);
                if i < end <= tokens.len() {
                    match state {
                        RuleState::Start => rules_from(tokens, end, RuleState::Matcher),
                        RuleState::Greater => rules_from(tokens, end, RuleState::Expander),
                        _ => false,
                    }
                } else {
                    false
                }
            },
            TokenKind::Punct => match state {
                RuleState::Matcher => is_punct(tokens[i], '=') && tokens[i].joint && rules_from(
                    tokens,
                    i + 1,
                    RuleState::Equal,
                ),
                RuleState::Equal => is_punct(tokens[i], '>') && !tokens[i].joint && rules_from(
                    tokens,
                    i + 1,
                    RuleState::Greater,
                ),
                RuleState::Expander => is_punct(tokens[i], ';') && !tokens[i].joint
                    && rules_from(tokens, i + 1, RuleState::Start),
                _ => false,
            },
            _ => false,
        }
    }
}

/// Whether the token at `k` is the word `macro_rules`.
pub open spec fn says_macro_rules(tokens: Seq<TokenModel>, k: int) -> bool {
    0 <= k < tokens.len() && tokens[k].kind == TokenKind::Ident && tokens[k].text
        == "macro_rules"@
}

/// Whether a definition by `macro_rules` starts at `k`: the word
/// `macro_rules`, `!`, a name and a group in brackets that show.
pub open spec fn defines_rules_at(tokens: Seq<TokenModel>, k: int) -> bool {
    &&& says_macro_rules(tokens, k)
    &&& k + 3 < tokens.len()
    &&& is_punct(tokens[k + 1], '!')
    &&& tokens[k + 2].kind == TokenKind::Ident
    &&& tokens[k + 3].kind is Open
    &&& tokens[k + 3].kind != TokenKind::Open(Enclosure::Invisible)
}

/// Whether the token at `j` is an end of a group whose brackets do not
/// show. The parser reads through such a group as if its tokens stood bare.
pub open spec fn unseen_at(tokens: Seq<TokenModel>, j: int) -> bool {
    0 <= j < tokens.len() && (tokens[j].kind == TokenKind::Open(Enclosure::Invisible)
        || tokens[j].kind == TokenKind::Close(Enclosure::Invisible))
}

/// Whether the formatter has a layout for what the word `macro_rules` at `k`
/// starts. Where the four tokens of a definition stand, the group must hold
/// a list of rules. Elsewhere the word starts no definition, unless a group
/// whose brackets do not show stands among the three tokens after it: then
/// the parser may find a definition that these tokens do not show.
pub open spec fn rules_fit_at(tokens: Seq<TokenModel>, k: int) -> bool {
    if defines_rules_at(tokens, k) {
        rules_from(tokens, k + 4, RuleState::Start)
    } else {
        !unseen_at(tokens, k + 1) && !unseen_at(tokens, k + 2) && !unseen_at(tokens, k + 3)
    }
}

/// Whether the formatter has a layout for every definition by `macro_rules`
/// among the tokens.
pub open spec fn rules_fit(tokens: Seq<TokenModel>) -> bool {
    forall|k: int| says_macro_rules(tokens, k) ==> rules_fit_at(tokens, k)
}

/// Whether the tokens from `from` up to the end of their group are a list
/// of macro rules.
pub fn holds_rules(tokens: &Vec<Token>, from: usize) -> (yes: bool)
    requires
        from <= tokens.len(),
    ensures
        yes == rules_from(models(tokens@), from as int, RuleState::Start),
{
    let ghost all = models(tokens@);
    let mut i: usize = from;
    let mut state = RuleState::Start;
    while i < tokens.len()
        invariant
            from <= i <= tokens.len(),
            all == models(tokens@),
            rules_from(all, from as int, RuleState::Start) == rules_from(all, i as int, state),
        decreases tokens.len() - i,
    {
        let token = &tokens[i];
        assert(all[i as int] == token@);
        match token.kind {
            TokenKind::Close(_) => {
                return true;
            },
            TokenKind::Open(_) => {
                let end = find_group_end(tokens, i + 1);
                let next = match state {
                    RuleState::Start => RuleState::Matcher,
                    RuleState::Greater => RuleState::Expander,
                    _ => {
                        return false;
                    },
                };
                state = next;
                i = end;
            },
            TokenKind::Punct => {
                let (wanted, joint, next) = match state {
                    RuleState::Matcher => ('=', true, RuleState::Equal),
                    RuleState::Equal => ('>', false, RuleState::Greater),
                    RuleState::Expander => (';', false, RuleState::Start),
                    _ => {
                        return false;
                    },
                };
                if !token_is_punct(token, wanted) || token.joint != joint {
                    return false;
                }
                state = next;
                i += 1;
            },
            _ => {
                return false;
            },
        }
    }
    true
}

/// Whether the token at `k` is the word `macro_rules`.
fn is_macro_rules(tokens: &Vec<Token>, k: usize) -> (yes: bool)
    requires
        k < tokens.len(),
    ensures
        yes == says_macro_rules(models(tokens@), k as int),
{
    match tokens[k].kind {
        TokenKind::Ident => same_text(&tokens[k].text, &chars_of("macro_rules")),
        _ => false,
    }
}

/// Whether a definition by `macro_rules` starts at `k`, where that word
/// stands.
fn defines_rules(tokens: &Vec<Token>, k: usize) -> (yes: bool)
    requires
        k < tokens.len(),
        says_macro_rules(models(tokens@), k as int),
    ensures
        yes == defines_rules_at(models(tokens@), k as int),
{
    if tokens.len() - k <= 3 {
        return false;
    }
    let name = match tokens[k + 2].kind {
        TokenKind::Ident => true,
        _ => false,
    };
    let group = match tokens[k + 3].kind {
        TokenKind::Open(Enclosure::Invisible) => false,
        TokenKind::Open(_) => true,
        _ => false,
    };
    token_is_punct(&tokens[k + 1], '!') && name && group
}

/// Whether the token at `j` is an end of a group whose brackets do not
/// show.
fn is_unseen(tokens: &Vec<Token>, j: usize) -> (yes: bool)
    ensures
        yes == unseen_at(models(tokens@), j as int),
{
    if j < tokens.len() {
        match tokens[j].kind {
            TokenKind::Open(Enclosure::Invisible) => true,
            TokenKind::Close(Enclosure::Invisible) => true,
            _ => false,
        }
    } else {
        false
    }
}

/// Whether the formatter has a layout for every definition by `macro_rules`
/// among the tokens.
pub fn rules_are_fit(tokens: &Vec<Token>) -> (yes: bool)
    ensures
        yes == rules_fit(models(tokens@)),
{
    let ghost all = models(tokens@);
    let mut k: usize = 0;
    while k < tokens.len()
        invariant
            k <= tokens.len(),
            all == models(tokens@),
            forall|j: int| 0 <= j < k && says_macro_rules(all, j) ==> rules_fit_at(all, j),
        decreases tokens.len() - k,
    {
        if is_macro_rules(tokens, k) {
            let fit = if defines_rules(tokens, k) {
                holds_rules(tokens, k + 4)
            } else {
                let n = tokens.len();
                !(n - k > 1 && is_unseen(tokens, k + 1)) && !(n - k > 2 && is_unseen(
                    tokens,
                    k + 2,
                )) && !(n - k > 3 && is_unseen(tokens, k + 3))
            };
            if !fit {
                assert(!rules_fit_at(all, k as int));
                return false;
            }
        }
        k += 1;
    }
    true
}

} // verus!
