//! Per-function allocation attribution: a function item is rewritten to
//! the same function with a probe guard as its first statement.
//!
//! The guard snapshots the allocator's running totals on entry and
//! accumulates the difference when it is dropped. Signature positions
//! before the body must not hold brace groups; a function without one
//! is refused rather than probed wrongly.
use vstd::prelude::*;
use vstd::string::*;
use crate::doc::Doc;
use crate::text::same;

verus! {

use crate::doc::joined;
use crate::table::texts;

/// A token of a function item, as far as the rewrite looks: words, brace
/// groups with the statements inside, and everything else.
#[derive(Debug, Clone, PartialEq)]
pub enum Token {
    Ident(String),
    Braces(Vec<String>),
    Other(String),
}

/// A token, as texts.
pub enum Lexed {
    Ident(Seq<char>),
    Braces(Seq<Seq<char>>),
    Other(Seq<char>),
}

impl View for Token {
    type V = Lexed;

    open spec fn view(&self) -> Lexed {
        match self {
            Token::Ident(s) => Lexed::Ident(s@),
            Token::Braces(b) => Lexed::Braces(texts(b@)),
            Token::Other(s) => Lexed::Other(s@),
        }
    }
}

/// Tokens, as texts.
pub open spec fn lexed(tokens: Seq<Token>) -> Seq<Lexed> {
    tokens.map_values(|t: Token| t@)
}

/// Position of the first `fn` from `i` on.
pub open spec fn fn_from(tokens: Seq<Lexed>, i: int) -> Option<int>
    decreases tokens.len() - i,
{
    if i >= tokens.len() {
        None
    } else if tokens[i] == Lexed::Ident("fn"@) {
        Some(i)
    } else {
        fn_from(tokens, i + 1)
    }
}

/// Position of the first brace group from `i` on.
pub open spec fn body_from(tokens: Seq<Lexed>, i: int) -> Option<int>
    decreases tokens.len() - i,
{
    if i >= tokens.len() {
        None
    } else if tokens[i] is Braces {
        Some(i)
    } else {
        body_from(tokens, i + 1)
    }
}

/// The guard statement for a function.
pub open spec fn guard_for(name: Seq<char>) -> Seq<char> {
    joined(
        seq![
            "#[cfg(feature = \"perf-alloc\")] let _probe = ::bw_core::alloc_probe::Probe::new(\""@,
            name,
            "\");"@,
        ],
    )
}

/// The rewritten item, or why it is refused.
pub open spec fn expanded(tokens: Seq<Lexed>) -> Result<Seq<Lexed>, Seq<char>> {
    match fn_from(tokens, 0) {
        None => Err("#[alloc_probe] requires a function item"@),
        Some(f) => if f + 1 >= tokens.len() || !(tokens[f + 1] is Ident) {
            Err("#[alloc_probe]: expected a function name after `fn`"@)
        } else {
            match body_from(tokens, f + 1) {
                None => Err("#[alloc_probe]: function has no body to probe"@),
                Some(b) => Ok(
                    tokens.update(
                        b,
                        Lexed::Braces(
                            seq![guard_for(tokens[f + 1]->Ident_0)] + tokens[b]->Braces_0,
                        ),
                    ),
                ),
            }
        },
    }
}

/// The error a refused item turns into.
pub open spec fn error_item(message: Seq<char>) -> Seq<char> {
    joined(seq!["compile_error!(\""@, message, "\");"@])
}

fn find_fn(tokens: &Vec<Token>) -> (r: Option<usize>)
    ensures
        match r {
            Some(i) => i < tokens@.len() && fn_from(lexed(tokens@), 0) == Some(i as int),
            None => fn_from(lexed(tokens@), 0) is None,
        },
{
    let mut i: usize = 0;
    while i < tokens.len()
        invariant
            i <= tokens@.len(),
            fn_from(lexed(tokens@), 0) == fn_from(lexed(tokens@), i as int),
        decreases tokens@.len() - i,
    {
        match &tokens[i] {
            Token::Ident(s) => {
                if same(s.as_str(), "fn") {
                    return Some(i);
                }
            },
            _ => {},
        }
        i = i + 1;
    }
    None
}

fn find_body(tokens: &Vec<Token>, from: usize) -> (r: Option<usize>)
    requires
        from <= tokens@.len(),
    ensures
        match r {
            Some(i) => from <= i < tokens@.len() && tokens@[i as int] is Braces && body_from(
                lexed(tokens@),
                from as int,
            ) == Some(i as int),
            None => body_from(lexed(tokens@), from as int) is None,
        },
{
    let mut i: usize = from;
    while i < tokens.len()
        invariant
            from <= i <= tokens@.len(),
            body_from(lexed(tokens@), from as int) == body_from(lexed(tokens@), i as int),
        decreases tokens@.len() - i,
    {
        match &tokens[i] {
            Token::Braces(b) => {
                return Some(i);
            },
            _ => {},
        }
        i = i + 1;
    }
    None
}

/// The guard statement for a function.
pub fn probe_statement(name: &str) -> (r: String)
    ensures
        r@ == guard_for(name@),
{
    let mut d = Doc::new();
    d.put("#[cfg(feature = \"perf-alloc\")] let _probe = ::bw_core::alloc_probe::Probe::new(\"");
    d.put(name);
    d.put("\");");
    proof {
        assert(d@ =~= seq![
            "#[cfg(feature = \"perf-alloc\")] let _probe = ::bw_core::alloc_probe::Probe::new(\""@,
            name@,
            "\");"@,
        ]);
    }
    d.finish()
}

fn guarded(guard: String, body: &Vec<String>) -> (r: Vec<String>)
    ensures
        texts(r@) == seq![guard@] + texts(body@),
{
    let mut out: Vec<String> = Vec::new();
    out.push(guard);
    let ghost want = seq![guard@] + texts(body@);
    let mut i: usize = 0;
    while i < body.len()
        invariant
            i <= body@.len(),
            want == seq![guard@] + texts(body@),
            out@.len() == i + 1,
            forall|j: int| 0 <= j <= i ==> (#[trigger] out@[j])@ == want[j],
        decreases body@.len() - i,
    {
        out.push(body[i].as_str().to_owned());
        i = i + 1;
    }
    proof {
        assert(texts(out@) =~= want);
    }
    out
}

/// Insert the guard into a function item.
pub fn expand(item: Vec<Token>) -> (r: Result<Vec<Token>, String>)
    ensures
        match r {
            Ok(tokens) => expanded(lexed(item@)) == Ok::<Seq<Lexed>, Seq<char>>(lexed(tokens@)),
            Err(e) => expanded(lexed(item@)) == Err::<Seq<Lexed>, Seq<char>>(e@),
        },
{
    let ghost all = lexed(item@);
    let at: usize = match find_fn(&item) {
        Some(i) => i,
        None => {
            return Err("#[alloc_probe] requires a function item".to_owned());
        },
    };
    let n: usize = item.len();
    if at == n - 1 {
        return Err("#[alloc_probe]: expected a function name after `fn`".to_owned());
    }
    proof {
        assert(all[at + 1] == item@[at + 1]@);
    }
    let guard = match &item[at + 1] {
        Token::Ident(name) => probe_statement(name.as_str()),
        _ => {
            return Err("#[alloc_probe]: expected a function name after `fn`".to_owned());
        },
    };
    let body_at: usize = match find_body(&item, at + 1) {
        Some(i) => i,
        None => {
            return Err("#[alloc_probe]: function has no body to probe".to_owned());
        },
    };
    let mut out = item;
    let probed = match &out[body_at] {
        Token::Braces(b) => guarded(guard, b),
        _ => Vec::new(),
    };
    out.set(body_at, Token::Braces(probed));
    proof {
        assert(lexed(out@) =~= all.update(
            body_at as int,
            Lexed::Braces(
                seq![guard_for(all[at + 1]->Ident_0)] + all[body_at as int]->Braces_0,
            ),
        ));
    }
    Ok(out)
}

/// The error a refused item turns into.
pub fn refusal(message: &str) -> (r: String)
    ensures
        r@ == error_item(message@),
{
    let mut d = Doc::new();
    d.put("compile_error!(\"");
    d.put(message);
    d.put("\");");
    proof {
        assert(d@ =~= seq!["compile_error!(\""@, message@, "\");"@]);
    }
    d.finish()
}

/// The attribute: it takes no arguments.
pub fn alloc_probe(attr_is_empty: bool, item: Vec<Token>) -> (r: Result<Vec<Token>, String>)
    ensures
        match r {
            Ok(tokens) => attr_is_empty && expanded(lexed(item@)) == Ok::<Seq<Lexed>, Seq<char>>(
                lexed(tokens@),
            ),
            Err(e) => if attr_is_empty {
                expanded(lexed(item@)) matches Err(m) && e@ == error_item(m)
            } else {
                e@ == error_item("#[alloc_probe] takes no arguments"@)
            },
        },
{
    if !attr_is_empty {
        return Err(refusal("#[alloc_probe] takes no arguments"));
    }
    match expand(item) {
        Ok(tokens) => Ok(tokens),
        Err(m) => Err(refusal(m.as_str())),
    }
}

/// The rewrite touches the body alone, and of the body only its start:
/// every other token, and every statement the body had, stays.
pub proof fn lemma_probes_keep_the_function(tokens: Seq<Lexed>, b: int)
    requires
        expanded(tokens) is Ok,
        0 <= b < tokens.len(),
    ensures
        ({
            let out = expanded(tokens)->Ok_0;
            &&& out.len() == tokens.len()
            &&& out[b] != tokens[b] ==> (tokens[b] is Braces && out[b] is Braces
                && out[b]->Braces_0.skip(1) == tokens[b]->Braces_0)
        }),
{
    let f = fn_from(tokens, 0)->Some_0;
    lemma_fn_in_range(tokens, 0);
    lemma_body_is_braces(tokens, f + 1);
    let at = body_from(tokens, f + 1)->Some_0;
    let guard = seq![guard_for(tokens[f + 1]->Ident_0)];
    if b == at {
        assert((guard + tokens[b]->Braces_0).skip(1) =~= tokens[b]->Braces_0);
    }
}

proof fn lemma_fn_in_range(tokens: Seq<Lexed>, i: int)
    requires
        0 <= i,
    ensures
        fn_from(tokens, i) matches Some(f) ==> i <= f < tokens.len(),
    decreases tokens.len() - i,
{
    if i < tokens.len() && tokens[i] != Lexed::Ident("fn"@) {
        lemma_fn_in_range(tokens, i + 1);
    }
}

proof fn lemma_body_is_braces(tokens: Seq<Lexed>, i: int)
    requires
        0 <= i,
    ensures
        body_from(tokens, i) matches Some(b) ==> i <= b < tokens.len() && tokens[b] is Braces,
    decreases tokens.len() - i,
{
    if i < tokens.len() && !(tokens[i] is Braces) {
        lemma_body_is_braces(tokens, i + 1);
    }
}

} // verus!
