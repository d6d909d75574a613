//! The template compiler: renders a template string against an environment
//! into literal text. A substitution marker is written `{{name}}`; the name
//! is trimmed and resolved against the environment. Compilation is
//! all-or-nothing: an undefined variable or an unclosed marker fails the
//! whole compilation, and literal text outside markers passes through
//! unchanged. The result is a function of the template and the environment
//! alone, so repeated compilation returns identical output.

use vstd::prelude::*;
use crate::digits::{dec_rep, dec_string};
use crate::environment::{env_lookup, Environment};
use crate::text::{is_trimmed, lemma_trim_trimmed, trim, trim_str};

verus! {

/// Why a compilation failed, over mathematical text.
pub enum CompileErr {
    /// The marker at offset `at` names `name`, which the environment does
    /// not define.
    Undefined { name: Seq<char>, at: int },
    /// The marker opened at offset `at` never closes.
    Unclosed { at: int },
}

/// Why a compilation failed: an undefined variable, or a marker that never
/// closes, each with the character offset of its `{{`.
#[derive(Debug)]
pub enum CompilationError {
    UndefinedVariable { name: String, at: usize },
    UnclosedMarker { at: usize },
}

impl View for CompilationError {
    type V = CompileErr;

    open spec fn view(&self) -> CompileErr {
        match self {
            CompilationError::UndefinedVariable { name, at } => CompileErr::Undefined {
                name: name@,
                at: *at as int,
            },
            CompilationError::UnclosedMarker { at } => CompileErr::Unclosed { at: *at as int },
        }
    }
}

impl CompilationError {
    /// A one-line description naming the offending variable or position.
    pub fn message(&self) -> (r: String)
        ensures
            match self {
                CompilationError::UndefinedVariable { name, at } => r@ == "undefined variable `"@
                    + name@ + "` at offset "@ + dec_rep(*at as int),
                CompilationError::UnclosedMarker { at } => r@ ==
                    "unclosed substitution marker at offset "@ + dec_rep(*at as int),
            },
    {
        match self {
            CompilationError::UndefinedVariable { name, at } => {
                let mut s = "undefined variable `".to_owned();
                s.append(name.as_str());
                s.append("` at offset ");
                s.append(dec_string(*at as u64).as_str());
                s
            },
            CompilationError::UnclosedMarker { at } => {
                let mut s = "unclosed substitution marker at offset ".to_owned();
                s.append(dec_string(*at as u64).as_str());
                s
            },
        }
    }
}

/// A substitution marker opens at `i`.
pub open spec fn is_open_at(t: Seq<char>, i: int) -> bool {
    0 <= i && i + 1 < t.len() && t[i] == '{' && t[i + 1] == '{'
}

/// A substitution marker closes at `i`.
pub open spec fn is_close_at(t: Seq<char>, i: int) -> bool {
    0 <= i && i + 1 < t.len() && t[i] == '}' && t[i + 1] == '}'
}

/// The position of the first marker close at or after `k`, if any.
pub open spec fn find_close_from(t: Seq<char>, k: int) -> Option<int>
    decreases t.len() - k,
{
    if k < 0 || k + 1 >= t.len() {
        None
    } else if is_close_at(t, k) {
        Some(k)
    } else {
        find_close_from(t, k + 1)
    }
}

pub proof fn lemma_find_close_from_spec(t: Seq<char>, k: int)
    requires
        k >= 0,
    ensures
        match find_close_from(t, k) {
            Some(j) => k <= j && j + 1 < t.len() && is_close_at(t, j) && (forall|m: int|
                k <= m < j ==> !is_close_at(t, m)),
            None => forall|m: int| k <= m ==> !is_close_at(t, m),
        },
    decreases t.len() - k,
{
    if !(k + 1 >= t.len()) && !is_close_at(t, k) {
        lemma_find_close_from_spec(t, k + 1);
    }
}

/// If the first close at or after `k` sits at `j`, the search finds exactly
/// `j`.
pub proof fn lemma_find_close_from_at(t: Seq<char>, k: int, j: int)
    requires
        0 <= k <= j,
        is_close_at(t, j),
        forall|m: int| k <= m < j ==> !is_close_at(t, m),
    ensures
        find_close_from(t, k) == Some(j),
{
    lemma_find_close_from_spec(t, k);
    match find_close_from(t, k) {
        Some(j2) => {
            if j2 < j {
                assert(!is_close_at(t, j2));
            } else if j2 > j {
                assert(!is_close_at(t, j));
            }
        },
        None => {
            assert(!is_close_at(t, j));
        },
    }
}

/// The compilation of the suffix of `t` that starts at `pos`: literal text
/// passes through, each `{{name}}` marker becomes the value bound to the
/// trimmed name, an unbound name or an unclosed marker fails the whole
/// compilation.
pub open spec fn compile_from(
    t: Seq<char>,
    vars: Seq<(Seq<char>, Seq<char>)>,
    pos: int,
) -> Result<Seq<char>, CompileErr>
    decreases t.len() - pos,
{
    if pos < 0 || pos >= t.len() {
        Ok(Seq::<char>::empty())
    } else if is_open_at(t, pos) {
        match find_close_from(t, pos + 2) {
            None => Err(CompileErr::Unclosed { at: pos }),
            Some(j) => if pos + 2 <= j && j + 2 <= t.len() {
                let name = trim(t.subrange(pos + 2, j));
                match env_lookup(vars, name) {
                    None => Err(CompileErr::Undefined { name, at: pos }),
                    Some(v) => match compile_from(t, vars, j + 2) {
                        Ok(rest) => Ok(v + rest),
                        Err(e) => Err(e),
                    },
                }
            } else {
                Err(CompileErr::Unclosed { at: pos })
            },
        }
    } else {
        match compile_from(t, vars, pos + 1) {
            Ok(rest) => Ok(seq![t[pos]] + rest),
            Err(e) => Err(e),
        }
    }
}

/// The compilation of template `t` against the variable bindings `vars`.
pub open spec fn compile_spec(t: Seq<char>, vars: Seq<(Seq<char>, Seq<char>)>) -> Result<
    Seq<char>,
    CompileErr,
> {
    compile_from(t, vars, 0)
}

/// Compiles `template` against `env`: the returned text, or the error, is
/// exactly what `compile_spec` states for the template's characters and the
/// environment's bindings.
pub fn compile(template: &str, env: &Environment) -> (r: Result<String, CompilationError>)
    ensures
        match r {
            Ok(s) => compile_spec(template@, env.vars()) == Ok::<Seq<char>, CompileErr>(s@),
            Err(e) => compile_spec(template@, env.vars()) == Err::<Seq<char>, CompileErr>(e@),
        },
{
    let n: usize = template.unicode_len();
    let mut out = String::new();
    let mut pos: usize = 0;
    while pos < n
        invariant
            n == template@.len(),
            0 <= pos <= n,
            match compile_from(template@, env.vars(), pos as int) {
                Ok(s) => compile_spec(template@, env.vars()) == Ok::<Seq<char>, CompileErr>(
                    out@ + s,
                ),
                Err(e) => compile_spec(template@, env.vars()) == Err::<Seq<char>, CompileErr>(e),
            },
        decreases n - pos,
    {
        let open_here = pos + 1 < n && template.get_char(pos) == '{' && template.get_char(pos + 1)
            == '{';
        if open_here {
            let mut k: usize = pos + 2;
            while n - k > 1 && !(template.get_char(k) == '}' && template.get_char(k + 1) == '}')
                invariant
                    n == template@.len(),
                    pos + 2 <= k <= n,
                    forall|m: int| pos + 2 <= m < k ==> !is_close_at(template@, m),
                decreases n - k,
            {
                k += 1;
            }
            if n - k > 1 {
                let j = k;
                proof {
                    lemma_find_close_from_at(template@, pos + 2, j as int);
                }
                let raw = template.substring_char(pos + 2, j);
                let name = trim_str(raw);
                match env.resolve(name.as_str()) {
                    None => {
                        return Err(CompilationError::UndefinedVariable { name, at: pos });
                    },
                    Some(v) => {
                        let ghost before = out@;
                        out.append(v.as_str());
                        proof {
                            match compile_from(template@, env.vars(), j + 2) {
                                Ok(rest) => {
                                    assert((before + v@) + rest =~= before + (v@ + rest));
                                },
                                Err(e) => {},
                            }
                        }
                        pos = j + 2;
                    },
                }
            } else {
                proof {
                    lemma_find_close_from_spec(template@, pos + 2);
                    if find_close_from(template@, pos + 2) is Some {
                        let j = find_close_from(template@, pos + 2)->Some_0;
                        assert(!is_close_at(template@, j));
                    }
                }
                return Err(CompilationError::UnclosedMarker { at: pos });
            }
        } else {
            let ghost before = out@;
            out.append(template.substring_char(pos, pos + 1));
            proof {
                assert(template@.subrange(pos as int, pos + 1) =~= seq![template@[pos as int]]);
                match compile_from(template@, env.vars(), pos + 1) {
                    Ok(rest) => {
                        assert((before + seq![template@[pos as int]]) + rest =~= before + (
                        seq![template@[pos as int]] + rest));
                    },
                    Err(e) => {},
                }
            }
            pos += 1;
        }
    }
    proof {
        assert(out@ + Seq::<char>::empty() =~= out@);
    }
    Ok(out)
}

/// A template with no substitution marker compiles to itself, against every
/// environment: the identity law.
pub proof fn lemma_compile_identity(t: Seq<char>, vars: Seq<(Seq<char>, Seq<char>)>)
    requires
        forall|i: int| !is_open_at(t, i),
    ensures
        compile_spec(t, vars) == Ok::<Seq<char>, CompileErr>(t),
{
    lemma_compile_identity_from(t, vars, 0);
    assert(t.skip(0) =~= t);
}

proof fn lemma_compile_identity_from(t: Seq<char>, vars: Seq<(Seq<char>, Seq<char>)>, pos: int)
    requires
        0 <= pos <= t.len(),
        forall|i: int| !is_open_at(t, i),
    ensures
        compile_from(t, vars, pos) == Ok::<Seq<char>, CompileErr>(t.skip(pos)),
    decreases t.len() - pos,
{
    if pos >= t.len() {
        assert(t.skip(pos) =~= Seq::<char>::empty());
    } else {
        assert(!is_open_at(t, pos));
        lemma_compile_identity_from(t, vars, pos + 1);
        assert(seq![t[pos]] + t.skip(pos + 1) =~= t.skip(pos));
    }
}

/// The text of a substitution marker for `name`.
pub open spec fn marker(name: Seq<char>) -> Seq<char> {
    seq!['{', '{'] + name + seq!['}', '}']
}

/// A template whose first marker names a variable the environment lacks
/// compiles to an error naming exactly that variable and its position, for
/// every such environment: `pre` is the literal text before the marker and
/// `post` whatever follows it.
pub proof fn lemma_compile_undefined(
    pre: Seq<char>,
    name: Seq<char>,
    post: Seq<char>,
    vars: Seq<(Seq<char>, Seq<char>)>,
)
    requires
        forall|i: int| 0 <= i < pre.len() ==> pre[i] != '{',
        forall|i: int| 0 <= i < name.len() ==> name[i] != '{' && name[i] != '}',
        is_trimmed(name),
        env_lookup(vars, name) is None,
    ensures
        compile_spec(pre + marker(name) + post, vars) == Err::<Seq<char>, CompileErr>(
            CompileErr::Undefined { name, at: pre.len() as int },
        ),
{
    let t = pre + marker(name) + post;
    let p = pre.len() as int;
    let j = p + 2 + name.len();
    assert(t[p] == '{');
    assert(t[p + 1] == '{');
    assert(is_open_at(t, p));
    assert(t[j] == '}');
    assert(t[j + 1] == '}');
    assert(is_close_at(t, j));
    assert forall|m: int| p + 2 <= m < j implies !is_close_at(t, m) by {
        assert(t[m] == name[m - p - 2]);
    }
    lemma_find_close_from_at(t, p + 2, j);
    assert(t.subrange(p + 2, j) =~= name);
    lemma_trim_trimmed(name);
    assert(compile_from(t, vars, p) == Err::<Seq<char>, CompileErr>(
        CompileErr::Undefined { name, at: p },
    ));
    assert forall|m: int| 0 <= m < p implies t[m] != '{' by {
        assert(t[m] == pre[m]);
    }
    lemma_literal_prefix_err(t, vars, 0, p);
}

/// Over literal text, compilation only passes an error through.
proof fn lemma_literal_prefix_err(
    t: Seq<char>,
    vars: Seq<(Seq<char>, Seq<char>)>,
    p: int,
    stop: int,
)
    requires
        0 <= p <= stop <= t.len(),
        forall|m: int| p <= m < stop ==> t[m] != '{',
        compile_from(t, vars, stop) is Err,
    ensures
        compile_from(t, vars, p) == compile_from(t, vars, stop),
    decreases stop - p,
{
    if p < stop {
        assert(!is_open_at(t, p));
        lemma_literal_prefix_err(t, vars, p + 1, stop);
    }
}

} // verus!
