//! The command-line grammar: a line is split into words and the operators
//! `|` and `>`, and the words between operators form calls, combined from the
//! left: `a | b > f` is a redirect of the pipe `a | b` into `f`.
use vstd::prelude::*;

use crate::text::{chars_of, is_space, is_space_char, string_push};

verus! {

/// Why a line could not be turned into a shell expression.
#[derive(Debug, Clone, Copy, PartialEq, Eq, Structural)]
pub enum ParserError {
    /// The words and operators of the line do not follow the grammar.
    PestParseError,
    /// The line holds no word at all.
    CouldNotParse,
}

/// A program with its arguments.
#[derive(Debug)]
pub struct Call {
    pub prog: String,
    pub arguments: Vec<String>,
}

/// An operator node: the call on its right and everything before it.
#[derive(Debug)]
pub struct LeftRecursiveBlock {
    pub right: Call,
    pub left: Box<ShellExpr>,
}

#[derive(Debug)]
pub struct Pipe(pub LeftRecursiveBlock);

#[derive(Debug)]
pub struct Redirect(pub LeftRecursiveBlock);

#[derive(Debug)]
pub enum ShellExpr {
    Pipe(Pipe),
    Redirect(Redirect),
    Call(Call),
}

/// The lexer of command lines.
pub struct ShellInput;

/// A lexical unit of a command line.
#[derive(Debug)]
pub enum Token {
    Word(String),
    Pipe,
    Redirect,
}

/// A call as plain values.
pub struct CallModel {
    pub prog: Seq<char>,
    pub arguments: Seq<Seq<char>>,
}

/// A shell expression as plain values: the call on the right of each operator,
/// and what stands on its left.
pub enum ExprModel {
    Call(CallModel),
    Pipe(Box<ExprModel>, CallModel),
    Redirect(Box<ExprModel>, CallModel),
}

/// A token as plain values.
pub enum TokenModel {
    Word(Seq<char>),
    Pipe,
    Redirect,
}

impl View for Call {
    type V = CallModel;

    open spec fn view(&self) -> CallModel {
        CallModel { prog: self.prog@, arguments: strings_view(self.arguments@) }
    }
}

impl View for Token {
    type V = TokenModel;

    open spec fn view(&self) -> TokenModel {
        match self {
            Token::Word(w) => TokenModel::Word(w@),
            Token::Pipe => TokenModel::Pipe,
            Token::Redirect => TokenModel::Redirect,
        }
    }
}

impl ShellExpr {
    /// The expression as plain values.
    pub open spec fn model(&self) -> ExprModel
        decreases self,
    {
        match self {
            ShellExpr::Call(c) => ExprModel::Call(c@),
            ShellExpr::Pipe(p) => ExprModel::Pipe(Box::new(p.0.left.model()), p.0.right@),
            ShellExpr::Redirect(r) => ExprModel::Redirect(Box::new(r.0.left.model()), r.0.right@),
        }
    }
}

pub open spec fn strings_view(s: Seq<String>) -> Seq<Seq<char>> {
    s.map_values(|a: String| a@)
}

pub open spec fn tokens_view(s: Seq<Token>) -> Seq<TokenModel> {
    s.map_values(|t: Token| t@)
}

/// A word, if one is pending, is closed and appended to the tokens.
pub open spec fn flush(tokens: Seq<TokenModel>, word: Seq<char>) -> Seq<TokenModel> {
    if word.len() == 0 {
        tokens
    } else {
        tokens.push(TokenModel::Word(word))
    }
}

/// Reading a line from the left: the tokens closed so far and the word being
/// read. White space ends a word; `|` and `>` end a word and are tokens of
/// their own; any other character extends the current word.
pub open spec fn scan(s: Seq<char>) -> (Seq<TokenModel>, Seq<char>)
    decreases s.len(),
{
    if s.len() == 0 {
        (seq![], seq![])
    } else {
        let (tokens, word) = scan(s.drop_last());
        let c = s.last();
        if is_space(c) {
            (flush(tokens, word), seq![])
        } else if c == '|' {
            (flush(tokens, word).push(TokenModel::Pipe), seq![])
        } else if c == '>' {
            (flush(tokens, word).push(TokenModel::Redirect), seq![])
        } else {
            (tokens, word.push(c))
        }
    }
}

/// The tokens of a line.
pub open spec fn tokens_of(s: Seq<char>) -> Seq<TokenModel> {
    flush(scan(s).0, scan(s).1)
}

pub open spec fn is_op(t: TokenModel) -> bool {
    !(t is Word)
}

/// The grammar of a line, over its tokens: it starts and ends with a word,
/// and every operator is followed by a word.
pub open spec fn grammar_ok(t: Seq<TokenModel>) -> bool {
    t.len() > 0 ==> {
        &&& t[0] is Word
        &&& t.last() is Word
        &&& forall|i: int| 0 <= i < t.len() - 1 && #[trigger] is_op(t[i]) ==> t[i + 1] is Word
    }
}

/// The index of the last operator, or `-1` when there is none.
pub open spec fn last_op(t: Seq<TokenModel>) -> int
    decreases t.len(),
{
    if t.len() == 0 {
        -1
    } else if is_op(t.last()) {
        t.len() - 1
    } else {
        last_op(t.drop_last())
    }
}

pub open spec fn word_text(t: TokenModel) -> Seq<char> {
    match t {
        TokenModel::Word(w) => w,
        _ => seq![],
    }
}

/// The call made of a run of words: the first names the program.
pub open spec fn call_of(words: Seq<TokenModel>) -> CallModel {
    CallModel { prog: word_text(words[0]), arguments: words.skip(1).map_values(|t| word_text(t)) }
}

/// The expression that a sequence of tokens denotes: the words after the last
/// operator form the call on its right, and the tokens before it the left
/// side. `None` where a run of words is empty.
#[verifier::opaque]
pub open spec fn tree_of(t: Seq<TokenModel>) -> Option<ExprModel>
    decreases t.len(),
{
    let k = last_op(t);
    let seg = t.subrange(k + 1, t.len() as int);
    if k + 1 >= t.len() {
        None
    } else if k < 0 {
        Some(ExprModel::Call(call_of(seg)))
    } else {
        proof {
            lemma_last_op_bounds(t);
        }
        match tree_of(t.take(k)) {
            Some(left) => Some(
                if t[k] is Pipe {
                    ExprModel::Pipe(Box::new(left), call_of(seg))
                } else {
                    ExprModel::Redirect(Box::new(left), call_of(seg))
                },
            ),
            None => None,
        }
    }
}

pub proof fn lemma_last_op_bounds(t: Seq<TokenModel>)
    ensures
        -1 <= last_op(t) < t.len(),
        last_op(t) >= 0 ==> is_op(t[last_op(t)]),
        forall|i: int| last_op(t) < i < t.len() ==> !is_op(#[trigger] t[i]),
    decreases t.len(),
{
    if t.len() > 0 && !is_op(t.last()) {
        lemma_last_op_bounds(t.drop_last());
        assert forall|i: int| last_op(t) < i < t.len() implies !is_op(#[trigger] t[i]) by {
            if i < t.len() - 1 {
                assert(t[i] == t.drop_last()[i]);
            }
        }
    }
}

impl ShellInput {
    /// Splits a line into its tokens.
    pub fn tokens(input: &str) -> (r: Vec<Token>)
        ensures
            tokens_view(r@) == tokens_of(input@),
    {
        let chars = chars_of(input);
        let mut toks: Vec<Token> = Vec::new();
        let mut word = String::new();
        let mut i: usize = 0;
        while i < chars.len()
            invariant
                i <= chars.len(),
                chars@ == input@,
                (tokens_view(toks@), word@) == scan(chars@.take(i as int)),
            decreases chars.len() - i,
        {
            let c = chars[i];
            assert(chars@.take(i + 1).drop_last() == chars@.take(i as int));
            assert(chars@.take(i + 1).last() == c);
            let ghost before = tokens_view(toks@);
            if is_space_char(c) || c == '|' || c == '>' {
                if !word.as_str().is_empty() {
                    toks.push(Token::Word(word));
                    word = String::new();
                    assert(tokens_view(toks@) == before.push(TokenModel::Word(last_word(&toks))));
                }
                let ghost flushed = tokens_view(toks@);
                if c == '|' {
                    toks.push(Token::Pipe);
                    assert(tokens_view(toks@) == flushed.push(TokenModel::Pipe));
                } else if c == '>' {
                    toks.push(Token::Redirect);
                    assert(tokens_view(toks@) == flushed.push(TokenModel::Redirect));
                }
            } else {
                string_push(&mut word, c);
            }
            i = i + 1;
        }
        assert(chars@.take(chars.len() as int) == chars@);
        if !word.as_str().is_empty() {
            let ghost before = tokens_view(toks@);
            toks.push(Token::Word(word));
            assert(tokens_view(toks@) == before.push(TokenModel::Word(last_word(&toks))));
        }
        toks
    }
}

impl LeftRecursiveBlock {
    /// An operator node with `shell_call` on its right; there must be a left side.
    pub fn from_shell_expr(shell_call: Call, left: Option<ShellExpr>) -> (r: Self)
        requires
            left is Some,
        ensures
            r.right == shell_call,
            *r.left == left->0,
    {
        LeftRecursiveBlock { right: shell_call, left: Box::new(left.unwrap()) }
    }
}

/// The expressions of a line: `Ok` exactly when the line holds at least one
/// word and follows the grammar, with the expression its tokens denote.
pub fn parse_input(input: &str) -> (r: Result<ShellExpr, ParserError>)
    ensures
        tokens_of(input@).len() == 0 ==> r == Err::<ShellExpr, ParserError>(ParserError::CouldNotParse),
        tokens_of(input@).len() > 0 && !grammar_ok(tokens_of(input@)) ==> r == Err::<ShellExpr, ParserError>(ParserError::PestParseError),
        tokens_of(input@).len() > 0 && grammar_ok(tokens_of(input@)) ==> r is Ok,
        r matches Ok(e) ==> tree_of(tokens_of(input@)) == Some(e.model()),
{
    let tokens = ShellInput::tokens(input);
    if tokens.len() == 0 {
        return Err(ParserError::CouldNotParse);
    }
    match call_to_tree(&tokens) {
        Ok(e) => Ok(e),
        Err(_) => Err(ParserError::PestParseError),
    }
}

/// The words of `t` before index `i` follow the grammar so far: the first is
/// a word, and no operator is followed by an operator.
pub open spec fn prefix_ok(t: Seq<TokenModel>, i: int) -> bool {
    &&& i > 0 ==> t[0] is Word
    &&& forall|k: int| 0 <= k < i - 1 && #[trigger] is_op(t[k]) ==> t[k + 1] is Word
}

proof fn lemma_last_op_step(t: Seq<TokenModel>, i: int)
    requires
        0 <= i < t.len(),
    ensures
        is_op(t[i]) ==> last_op(t.take(i + 1)) == i,
        !is_op(t[i]) ==> last_op(t.take(i + 1)) == last_op(t.take(i)),
{
    assert(t.take(i + 1).drop_last() == t.take(i));
    assert(t.take(i + 1).last() == t[i]);
}

proof fn lemma_call_of(words: Seq<String>, seg: Seq<TokenModel>)
    requires
        words.len() > 0,
        strings_view(words) == seg.map_values(|x| word_text(x)),
    ensures
        call_of(seg) == (CallModel { prog: words[0]@, arguments: strings_view(words.skip(1)) }),
{
    assert(seg.map_values(|x| word_text(x)).len() == seg.len());
    assert(strings_view(words).len() == words.len());
    assert(seg.map_values(|x| word_text(x))[0] == word_text(seg[0]));
    assert(strings_view(words)[0] == words[0]@);
    assert(strings_view(words.skip(1)) =~= seg.skip(1).map_values(|t| word_text(t))) by {
        assert forall|k: int| 0 <= k < words.len() - 1 implies #[trigger] strings_view(words.skip(1))[k]
            == seg.skip(1).map_values(|t| word_text(t))[k] by {
            assert(strings_view(words)[k + 1] == seg.map_values(|x| word_text(x))[k + 1]);
            assert(words.skip(1)[k] == words[k + 1]);
            assert(seg.skip(1)[k] == seg[k + 1]);
        }
    }
}

/// Reading a word keeps the last operator and extends the run of words.
proof fn lemma_word_step(t: Seq<TokenModel>, i: int, j: int, run: Seq<Seq<char>>)
    requires
        0 <= i < t.len(),
        t[i] is Word,
        j == last_op(t.take(i)),
        run == t.subrange(j + 1, i).map_values(|x| word_text(x)),
        prefix_ok(t, i),
    ensures
        last_op(t.take(i + 1)) == j,
        run.push(word_text(t[i])) =~= t.subrange(j + 1, i + 1).map_values(|x| word_text(x)),
        prefix_ok(t, i + 1),
{
    lemma_last_op_step(t, i);
    lemma_last_op_bounds(t.take(i));
    assert forall|k: int| 0 <= k < i && #[trigger] is_op(t[k]) implies t[k + 1] is Word by {
        if k + 1 < i {
        }
    }
}

/// The tokens before an operator, or all of them, after a nonempty run of
/// words: they denote the expression that hangs the run under the previous
/// operator.
proof fn lemma_close_run(t: Seq<TokenModel>, i: int, j: int, left: Option<ExprModel>)
    requires
        0 <= i <= t.len(),
        j == last_op(t.take(i)),
        j + 1 < i,
        j >= 0 ==> tree_of(t.take(j)) == left && left is Some,
    ensures
        j < 0 ==> tree_of(t.take(i)) == Some(ExprModel::Call(call_of(t.subrange(j + 1, i)))),
        j >= 0 && t[j] is Pipe ==> tree_of(t.take(i)) == Some(
            ExprModel::Pipe(Box::new(left->0), call_of(t.subrange(j + 1, i))),
        ),
        j >= 0 && !(t[j] is Pipe) ==> tree_of(t.take(i)) == Some(
            ExprModel::Redirect(Box::new(left->0), call_of(t.subrange(j + 1, i))),
        ),
{
    reveal(tree_of);
    lemma_last_op_bounds(t.take(i));
    let pre = t.take(i);
    assert(pre.subrange(j + 1, i) == t.subrange(j + 1, i));
    if j >= 0 {
        assert(pre.take(j) == t.take(j));
        assert(pre[j] == t[j]);
    }
}

/// Reading an operator after a nonempty run of words.
proof fn lemma_op_step(t: Seq<TokenModel>, i: int, j: int)
    requires
        0 <= i < t.len(),
        is_op(t[i]),
        j == last_op(t.take(i)),
        j + 1 < i,
        prefix_ok(t, i),
    ensures
        last_op(t.take(i + 1)) == i,
        prefix_ok(t, i + 1),
{
    lemma_last_op_step(t, i);
    lemma_last_op_bounds(t.take(i));
    let pre = t.take(i);
    assert(t[i - 1] == pre[i - 1]);
    assert forall|k: int| 0 <= k < i && #[trigger] is_op(t[k]) implies t[k + 1] is Word by {
        if k + 1 == i {
            assert(pre[k] == t[k]);
        }
    }
}

/// A run of words that ends the line, or an operator with nothing before it,
/// breaks the grammar.
proof fn lemma_empty_run(t: Seq<TokenModel>, i: int)
    requires
        0 <= i <= t.len(),
        last_op(t.take(i)) == i - 1,
        i == t.len() || is_op(t[i]),
        t.len() > 0,
    ensures
        !grammar_ok(t),
{
    lemma_last_op_bounds(t.take(i));
    if i > 0 {
        assert(t.take(i)[i - 1] == t[i - 1]);
    }
}

/// The call made of a nonempty run of words: the first names the program,
/// the others are its arguments.
fn parse_call(words: Vec<String>) -> (r: Call)
    requires
        words.len() > 0,
    ensures
        r@ == (CallModel { prog: words@[0]@, arguments: strings_view(words@.skip(1)) }),
{
    let mut words = words;
    let ghost all = words@;
    let prog = words.remove(0);
    assert(words@ == all.skip(1));
    Call { prog, arguments: words }
}

/// Hangs `call` under the operator that follows `acc`, or makes it the whole
/// expression when nothing precedes it.
fn attach(acc: Option<ShellExpr>, pipe: bool, call: Call) -> (r: ShellExpr)
    ensures
        acc is None ==> r.model() == ExprModel::Call(call@),
        acc is Some && pipe ==> r.model() == ExprModel::Pipe(Box::new(acc->0.model()), call@),
        acc is Some && !pipe ==> r.model() == ExprModel::Redirect(Box::new(acc->0.model()), call@),
{
    if acc.is_none() {
        ShellExpr::Call(call)
    } else if pipe {
        ShellExpr::Pipe(Pipe(LeftRecursiveBlock::from_shell_expr(call, acc)))
    } else {
        ShellExpr::Redirect(Redirect(LeftRecursiveBlock::from_shell_expr(call, acc)))
    }
}

/// Builds the expression of a sequence of tokens, from the left.
fn call_to_tree(tokens: &Vec<Token>) -> (r: Result<ShellExpr, ParserError>)
    ensures
        r is Ok <==> tokens@.len() > 0 && grammar_ok(tokens_view(tokens@)),
        r matches Ok(e) ==> tree_of(tokens_view(tokens@)) == Some(e.model()),
        r matches Err(err) ==> err == ParserError::CouldNotParse,
{
    let ghost t = tokens_view(tokens@);
    let n = tokens.len();
    let mut acc: Option<ShellExpr> = None;
    let mut pending_pipe = false;
    let mut words: Vec<String> = Vec::new();
    let ghost mut j: int = -1;
    let mut i: usize = 0;
    while i < n
        invariant
            n == tokens@.len(),
            t == tokens_view(tokens@),
            i <= n,
            j == last_op(t.take(i as int)),
            prefix_ok(t, i as int),
            strings_view(words@) == t.subrange(j + 1, i as int).map_values(|x| word_text(x)),
            (j < 0) == (acc is None),
            j >= 0 ==> tree_of(t.take(j)) == Some(acc->0.model()),
            j >= 0 ==> pending_pipe == (t[j] is Pipe),
        decreases n - i,
    {
        proof {
            lemma_last_op_bounds(t.take(i as int));
            assert(t[i as int] == tokens@[i as int]@);
            assert(strings_view(words@).len() == words@.len());
            assert(words@.len() == i - j - 1);
        }
        match &tokens[i] {
            Token::Word(w) => {
                proof {
                    lemma_word_step(t, i as int, j, strings_view(words@));
                }
                let ghost before = words@;
                words.push(w.clone());
                assert(strings_view(words@) =~= strings_view(before).push(w@));
            },
            tok => {
                if words.len() == 0 {
                    proof {
                        lemma_empty_run(t, i as int);
                    }
                    return Err(ParserError::CouldNotParse);
                }
                let ghost left = if j >= 0 { Some(acc->0.model()) } else { None };
                proof {
                    lemma_op_step(t, i as int, j);
                    lemma_close_run(t, i as int, j, left);
                    lemma_call_of(words@, t.subrange(j + 1, i as int));
                }
                let is_pipe = match tok {
                    Token::Pipe => true,
                    _ => false,
                };
                let call = parse_call(words);
                words = Vec::new();
                acc = Some(attach(acc, pending_pipe, call));
                pending_pipe = is_pipe;
                proof {
                    j = i as int;
                    assert(t.take(i + 1).take(i as int) == t.take(i as int));
                    assert(strings_view(words@) =~= t.subrange(j + 1, i + 1).map_values(|x| word_text(x)));
                }
            },
        }
        i = i + 1;
    }
    proof {
        assert(t.take(n as int) == t);
        lemma_last_op_bounds(t);
        assert(strings_view(words@).len() == words@.len());
        assert(words@.len() == n - j - 1);
    }
    if words.len() == 0 {
        proof {
            if n > 0 {
                lemma_empty_run(t, n as int);
            }
        }
        return Err(ParserError::CouldNotParse);
    }
    let ghost left = if j >= 0 { Some(acc->0.model()) } else { None };
    proof {
        lemma_call_of(words@, t.subrange(j + 1, n as int));
        lemma_close_run(t, n as int, j, left);
        assert(t[n - 1] is Word);
        assert(tree_of(t) == tree_of(t.take(n as int)));
    }
    let call = parse_call(words);
    Ok(attach(acc, pending_pipe, call))
}

/// Every character is white space.
pub open spec fn all_space(s: Seq<char>) -> bool {
    forall|i: int| 0 <= i < s.len() ==> is_space(#[trigger] s[i])
}

proof fn lemma_scan_of_space(a: Seq<char>)
    requires
        all_space(a),
    ensures
        scan(a) == (Seq::<TokenModel>::empty(), Seq::<char>::empty()),
    decreases a.len(),
{
    if a.len() > 0 {
        assert(all_space(a.drop_last()));
        lemma_scan_of_space(a.drop_last());
    }
}

proof fn lemma_scan_after_space(a: Seq<char>, s: Seq<char>)
    requires
        all_space(a),
    ensures
        scan(a + s) == scan(s),
    decreases s.len(),
{
    if s.len() == 0 {
        assert(a + s == a);
        lemma_scan_of_space(a);
    } else {
        assert((a + s).drop_last() == a + s.drop_last());
        assert((a + s).last() == s.last());
        lemma_scan_after_space(a, s.drop_last());
    }
}

proof fn lemma_tokens_before_space(s: Seq<char>, b: Seq<char>)
    requires
        all_space(b),
    ensures
        tokens_of(s + b) == tokens_of(s),
    decreases b.len(),
{
    if b.len() == 0 {
        assert(s + b == s);
    } else {
        assert((s + b).drop_last() == s + b.drop_last());
        assert((s + b).last() == b.last());
        assert(all_space(b.drop_last()));
        lemma_tokens_before_space(s, b.drop_last());
    }
}

/// White space around a line does not change its tokens, and so neither
/// what it parses to: a line read with its line ending parses as the line.
pub proof fn law_surrounding_space(a: Seq<char>, s: Seq<char>, b: Seq<char>)
    requires
        all_space(a),
        all_space(b),
    ensures
        tokens_of(a + s + b) == tokens_of(s),
{
    lemma_tokens_before_space(a + s, b);
    lemma_scan_after_space(a, s);
}

/// A nonempty sequence of tokens denotes an expression exactly when it
/// follows the grammar.
pub proof fn law_tree_iff_grammar(t: Seq<TokenModel>)
    requires
        t.len() > 0,
    ensures
        tree_of(t) is Some <==> grammar_ok(t),
    decreases t.len(),
{
    reveal(tree_of);
    lemma_last_op_bounds(t);
    let k = last_op(t);
    if k < 0 {
        assert forall|i: int| 0 <= i < t.len() - 1 && #[trigger] is_op(t[i]) implies t[i + 1] is Word by {
        }
        assert(!is_op(t[0]));
    } else if k + 1 < t.len() {
        assert(!is_op(t[k + 1]));
        if k > 0 {
            let p = t.take(k);
            law_tree_iff_grammar(p);
            assert(p[0] == t[0]);
            assert(p.last() == t[k - 1]);
            if grammar_ok(p) {
                assert forall|i: int| 0 <= i < t.len() - 1 && #[trigger] is_op(t[i]) implies t[i + 1] is Word by {
                    if i < k - 1 {
                        assert(p[i] == t[i]);
                        assert(p[i + 1] == t[i + 1]);
                    }
                }
            }
            if grammar_ok(t) {
                assert forall|i: int| 0 <= i < p.len() - 1 && #[trigger] is_op(p[i]) implies p[i + 1] is Word by {
                    assert(p[i] == t[i]);
                    assert(p[i + 1] == t[i + 1]);
                }
                assert(!is_op(t[k - 1]));
            }
        } else {
            assert(t.take(0).len() == 0);
        }
    }
}

proof fn lemma_flush_after(t: Seq<TokenModel>, u: Seq<TokenModel>, w: Seq<char>)
    ensures
        flush(t + u, w) == t + flush(u, w),
{
    if w.len() > 0 {
        assert((t + u).push(TokenModel::Word(w)) =~= t + u.push(TokenModel::Word(w)));
    }
}

/// Reading on from a point where no word is pending adds the tokens of the
/// rest to those read so far.
proof fn lemma_scan_resumes(x: Seq<char>, y: Seq<char>)
    requires
        scan(x).1.len() == 0,
    ensures
        scan(x + y) == (scan(x).0 + scan(y).0, scan(y).1),
    decreases y.len(),
{
    let t = scan(x).0;
    if y.len() == 0 {
        assert(x + y == x);
        assert(t + Seq::<TokenModel>::empty() == t);
        assert(scan(x).1 =~= Seq::<char>::empty());
    } else {
        let y0 = y.drop_last();
        lemma_scan_resumes(x, y0);
        assert((x + y).drop_last() == x + y0);
        assert((x + y).last() == y.last());
        let (u, w) = scan(y0);
        lemma_flush_after(t, u, w);
        assert((t + flush(u, w)).push(TokenModel::Pipe) =~= t + flush(u, w).push(TokenModel::Pipe));
        assert((t + flush(u, w)).push(TokenModel::Redirect) =~= t + flush(u, w).push(TokenModel::Redirect));
    }
}

/// The tokens of a text with a separator in it: a `|` or `>` becomes an
/// operator token between the tokens on its two sides, and white space just
/// separates them.
pub proof fn law_separators_split_tokens(a: Seq<char>, c: char, b: Seq<char>)
    requires
        c == '|' || c == '>' || is_space(c),
    ensures
        c == '|' ==> tokens_of(a + seq![c] + b) == tokens_of(a) + seq![TokenModel::Pipe] + tokens_of(b),
        c == '>' ==> tokens_of(a + seq![c] + b) == tokens_of(a) + seq![TokenModel::Redirect] + tokens_of(b),
        is_space(c) ==> tokens_of(a + seq![c] + b) == tokens_of(a) + tokens_of(b),
{
    let x = a + seq![c];
    assert(x.drop_last() == a);
    assert(x.last() == c);
    lemma_scan_resumes(x, b);
    lemma_flush_after(scan(x).0, scan(b).0, scan(b).1);
}

/// A nonempty text without white space or operators is a single word.
pub proof fn law_plain_text_is_one_word(w: Seq<char>)
    requires
        w.len() > 0,
        forall|i: int| 0 <= i < w.len() ==> !is_space(#[trigger] w[i]) && w[i] != '|' && w[i] != '>',
    ensures
        tokens_of(w) == seq![TokenModel::Word(w)],
{
    lemma_scan_of_word(w);
}

proof fn lemma_scan_of_word(w: Seq<char>)
    requires
        forall|i: int| 0 <= i < w.len() ==> !is_space(#[trigger] w[i]) && w[i] != '|' && w[i] != '>',
    ensures
        scan(w) == (Seq::<TokenModel>::empty(), w),
    decreases w.len(),
{
    if w.len() > 0 {
        let v = w.drop_last();
        assert forall|i: int| 0 <= i < v.len() implies !is_space(#[trigger] v[i]) && v[i] != '|' && v[i] != '>' by {
            assert(v[i] == w[i]);
        }
        lemma_scan_of_word(v);
        assert(v.push(w.last()) =~= w);
    } else {
        assert(w =~= Seq::<char>::empty());
    }
}

/// How many operators a sequence of tokens holds.
pub open spec fn op_count(t: Seq<TokenModel>) -> nat
    decreases t.len(),
{
    if t.len() == 0 {
        0
    } else {
        op_count(t.drop_last()) + if is_op(t.last()) {
            1nat
        } else {
            0nat
        }
    }
}

/// How many calls an expression holds.
pub open spec fn call_count(e: ExprModel) -> nat
    decreases e,
{
    match e {
        ExprModel::Call(_) => 1,
        ExprModel::Pipe(left, _) => call_count(*left) + 1,
        ExprModel::Redirect(left, _) => call_count(*left) + 1,
    }
}

proof fn lemma_op_count_concat(a: Seq<TokenModel>, b: Seq<TokenModel>)
    ensures
        op_count(a + b) == op_count(a) + op_count(b),
    decreases b.len(),
{
    if b.len() == 0 {
        assert(a + b == a);
    } else {
        lemma_op_count_concat(a, b.drop_last());
        assert((a + b).drop_last() == a + b.drop_last());
        assert((a + b).last() == b.last());
    }
}

proof fn lemma_op_count_after_last(t: Seq<TokenModel>)
    ensures
        op_count(t.subrange(last_op(t) + 1, t.len() as int)) == 0,
    decreases t.len(),
{
    lemma_last_op_bounds(t);
    if t.len() > 0 && !is_op(t.last()) {
        let u = t.drop_last();
        lemma_op_count_after_last(u);
        let seg = t.subrange(last_op(t) + 1, t.len() as int);
        assert(seg.drop_last() == u.subrange(last_op(u) + 1, u.len() as int));
    } else {
        assert(t.subrange(last_op(t) + 1, t.len() as int).len() == 0);
    }
}

/// Every operator of a line becomes one node of its expression: a line with
/// `n` operators denotes an expression of `n + 1` calls.
pub proof fn law_one_call_more_than_operators(t: Seq<TokenModel>)
    requires
        tree_of(t) is Some,
    ensures
        call_count(tree_of(t)->0) == op_count(t) + 1,
    decreases t.len(),
{
    reveal(tree_of);
    lemma_last_op_bounds(t);
    lemma_op_count_after_last(t);
    let k = last_op(t);
    let seg = t.subrange(k + 1, t.len() as int);
    if k < 0 {
        assert(seg == t);
    } else {
        law_one_call_more_than_operators(t.take(k));
        assert(t == t.take(k) + seq![t[k]] + seg);
        lemma_op_count_concat(t.take(k) + seq![t[k]], seg);
        lemma_op_count_concat(t.take(k), seq![t[k]]);
        assert(seq![t[k]].drop_last() == Seq::<TokenModel>::empty());
        assert(op_count(Seq::<TokenModel>::empty()) == 0);
        assert(op_count(seq![t[k]]) == 1);
        assert(op_count(t) == op_count(t.take(k)) + 1);
        let left = tree_of(t.take(k))->0;
        assert(call_count(tree_of(t)->0) == call_count(left) + 1);
    }
}

/// The text of the last token.
spec fn last_word(toks: &Vec<Token>) -> Seq<char> {
    word_text(toks@.last()@)
}

} // verus!
