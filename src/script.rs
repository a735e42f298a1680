use vstd::prelude::*;
use crate::env::Env;

verus! {

broadcast use vstd::std_specs::vec::group_vec_axioms;

/// Index of the first `c` in `s` from `from` on, or `s.len()`.
pub open spec fn find_from(s: Seq<char>, c: char, from: int) -> int
    decreases s.len() - from,
{
    if from >= s.len() {
        s.len() as int
    } else if s[from] == c {
        from
    } else {
        find_from(s, c, from + 1)
    }
}

/// A line without the `\r` that may end it.
pub open spec fn strip_cr(line: Seq<char>) -> Seq<char> {
    if line.len() > 0 && line.last() == '\r' {
        line.drop_last()
    } else {
        line
    }
}

pub open spec fn trim_quotes_start(t: Seq<char>) -> Seq<char>
    decreases t.len(),
{
    if t.len() > 0 && t[0] == '\'' {
        trim_quotes_start(t.drop_first())
    } else {
        t
    }
}

pub open spec fn trim_quotes_end(t: Seq<char>) -> Seq<char>
    decreases t.len(),
{
    if t.len() > 0 && t.last() == '\'' {
        trim_quotes_end(t.drop_last())
    } else {
        t
    }
}

/// `t` without the single quotes at either end.
pub open spec fn trim_quotes(t: Seq<char>) -> Seq<char> {
    trim_quotes_end(trim_quotes_start(t))
}

pub open spec fn export_prefix() -> Seq<char> {
    seq!['e', 'x', 'p', 'o', 'r', 't', ' ']
}

pub open spec fn var_prefix() -> Seq<char> {
    seq!['B', 'L', 'A', 'C', 'K', 'J', 'A', 'C', 'K', '_']
}

/// The variable that a line `export NAME=VALUE` sets, where NAME begins with `BLACKJACK_`;
/// the value loses the single quotes at its ends.
pub open spec fn export_binding(line: Seq<char>) -> Option<(Seq<char>, Seq<char>)> {
    if line.len() >= 7 && line.subrange(0, 7) == export_prefix() {
        let rest = line.subrange(7, line.len() as int);
        let eq = find_from(rest, '=', 0);
        let name = rest.subrange(0, eq);
        if eq < rest.len() && name.len() >= 10 && name.subrange(0, 10) == var_prefix() {
            Some((name, trim_quotes(rest.subrange(eq + 1, rest.len() as int))))
        } else {
            None
        }
    } else {
        None
    }
}

/// `vars` after the bindings of every line of `text`, in order.
pub open spec fn parse_exports_spec(vars: Map<Seq<char>, Seq<char>>, text: Seq<char>) -> Map<
    Seq<char>,
    Seq<char>,
>
    decreases text.len(),
{
    if text.len() == 0 {
        vars
    } else {
        proof {
            lemma_find_bounds(text, '\n', 0);
        }
        let nl = find_from(text, '\n', 0);
        let line = strip_cr(text.subrange(0, nl));
        let next = match export_binding(line) {
            Some((k, v)) => vars.insert(k, v),
            None => vars,
        };
        if nl >= text.len() {
            next
        } else {
            parse_exports_spec(next, text.subrange(nl + 1, text.len() as int))
        }
    }
}

/// The command that `sh -c` runs for a script: the script is sourced, so that the variables
/// it exports survive, and the exports are then written to `env_file`.
pub fn shell_command(command_line: &str, env_file: &str) -> (r: String)
    ensures
        r@ == ". "@ + command_line@ + " && export -p > "@ + env_file@,
{
    let mut r = String::from_str(". ");
    r.append(command_line);
    r.append(" && export -p > ");
    r.append(env_file);
    r
}

pub fn chars_of(s: &str) -> (r: Vec<char>)
    ensures
        r@ == s@,
{
    let n = s.unicode_len();
    let mut r: Vec<char> = Vec::new();
    let mut i: usize = 0;
    while i < n
        invariant
            n == s@.len(),
            i <= n,
            r@ == s@.subrange(0, i as int),
        decreases n - i,
    {
        r.push(s.get_char(i));
        i = i + 1;
        proof {
            assert(r@ =~= s@.subrange(0, i as int));
        }
    }
    proof {
        assert(r@ =~= s@);
    }
    r
}

fn find_char(cs: &Vec<char>, c: char, from: usize, end: usize) -> (r: usize)
    requires
        from <= end <= cs@.len(),
    ensures
        r == find_from(cs@.subrange(0, end as int), c, from as int),
    decreases end - from,
{
    if from >= end {
        end
    } else if cs[from] == c {
        from
    } else {
        find_char(cs, c, from + 1, end)
    }
}

proof fn lemma_find_shift(s: Seq<char>, c: char, off: int, from: int)
    requires
        0 <= off <= from <= s.len(),
    ensures
        find_from(s.subrange(off, s.len() as int), c, from - off) + off == find_from(s, c, from),
    decreases s.len() - from,
{
    if from < s.len() {
        lemma_find_shift(s, c, off, from + 1);
    }
}

pub proof fn lemma_find_bounds(s: Seq<char>, c: char, from: int)
    requires
        0 <= from <= s.len(),
    ensures
        from <= find_from(s, c, from) <= s.len(),
        find_from(s, c, from) < s.len() ==> s[find_from(s, c, from)] == c,
    decreases s.len() - from,
{
    if from < s.len() && s[from] != c {
        lemma_find_bounds(s, c, from + 1);
    }
}

fn trim_start_index(cs: &Vec<char>, from: usize, end: usize) -> (r: usize)
    requires
        from <= end <= cs@.len(),
    ensures
        from <= r <= end,
        trim_quotes_start(cs@.subrange(from as int, end as int)) == cs@.subrange(r as int, end as int),
    decreases end - from,
{
    if from < end && cs[from] == '\'' {
        proof {
            assert(cs@.subrange(from as int, end as int).drop_first() =~= cs@.subrange(
                from + 1,
                end as int,
            ));
        }
        trim_start_index(cs, from + 1, end)
    } else {
        from
    }
}

fn trim_end_index(cs: &Vec<char>, from: usize, end: usize) -> (r: usize)
    requires
        from <= end <= cs@.len(),
    ensures
        from <= r <= end,
        trim_quotes_end(cs@.subrange(from as int, end as int)) == cs@.subrange(from as int, r as int),
    decreases end - from,
{
    if from < end && cs[end - 1] == '\'' {
        proof {
            assert(cs@.subrange(from as int, end as int).drop_last() =~= cs@.subrange(
                from as int,
                end - 1,
            ));
        }
        trim_end_index(cs, from, end - 1)
    } else {
        end
    }
}

fn has_prefix_at(cs: &Vec<char>, at: usize, end: usize, prefix: &Vec<char>) -> (r: bool)
    requires
        at <= end <= cs@.len(),
    ensures
        r == (end - at >= prefix@.len() && cs@.subrange(at as int, at + prefix@.len()) == prefix@),
{
    if end - at < prefix.len() {
        return false;
    }
    let mut i: usize = 0;
    while i < prefix.len()
        invariant
            end - at >= prefix@.len(),
            at <= end <= cs@.len(),
            i <= prefix@.len(),
            forall|j: int| 0 <= j < i ==> cs@[at + j] == prefix@[j],
        decreases prefix@.len() - i,
    {
        if cs[at + i] != prefix[i] {
            proof {
                assert(cs@.subrange(at as int, at + prefix@.len())[i as int] != prefix@[i as int]);
            }
            return false;
        }
        i = i + 1;
    }
    proof {
        assert(cs@.subrange(at as int, at + prefix@.len()) =~= prefix@);
    }
    true
}

/// Applies the binding of the line `cs[pos..end]`, if it has one.
#[verifier::rlimit(40)]
fn apply_line(
    text: &str,
    cs: &Vec<char>,
    pos: usize,
    end: usize,
    env: &mut Env,
    export_word: &Vec<char>,
    prefix: &Vec<char>,
)
    requires
        cs@ == text@,
        pos <= end <= cs@.len(),
        export_word@ == export_prefix(),
        prefix@ == var_prefix(),
    ensures
        final(env)@ == match export_binding(cs@.subrange(pos as int, end as int)) {
            Some((k, v)) => old(env)@.insert(k, v),
            None => old(env)@,
        },
{
    let ghost line = cs@.subrange(pos as int, end as int);
    if has_prefix_at(cs, pos, end, export_word) {
        let start = pos + 7;
        let eq = find_char(cs, '=', start, end);
        let ghost r2 = line.subrange(7, line.len() as int);
        proof {
            assert(line.subrange(0, 7) =~= cs@.subrange(pos as int, pos + 7));
            assert(r2 =~= cs@.subrange(0, end as int).subrange(start as int, end as int));
            lemma_find_shift(cs@.subrange(0, end as int), '=', start as int, start as int);
            lemma_find_bounds(cs@.subrange(0, end as int), '=', start as int);
            assert(find_from(r2, '=', 0) == eq - start);
        }
        if eq < end && has_prefix_at(cs, start, eq, prefix) {
            let a = trim_start_index(cs, eq + 1, end);
            let b = trim_end_index(cs, a, end);
            let name = text.substring_char(start, eq);
            let value = text.substring_char(a, b);
            proof {
                let e2 = find_from(r2, '=', 0);
                assert(r2.subrange(0, e2) =~= cs@.subrange(start as int, eq as int));
                assert(r2.subrange(e2 + 1, r2.len() as int) =~= cs@.subrange(eq + 1, end as int));
                assert(cs@.subrange(start as int, eq as int).subrange(0, 10) =~= cs@.subrange(
                    start as int,
                    start + 10,
                ));
            }
            env.insert(String::from_str(name), String::from_str(value));
        } else {
            proof {
                let e2 = find_from(r2, '=', 0);
                if eq < end {
                    assert(r2.subrange(0, e2) =~= cs@.subrange(start as int, eq as int));
                    if eq - start >= 10 {
                        assert(cs@.subrange(start as int, eq as int).subrange(0, 10) =~= cs@.subrange(
                            start as int,
                            start + 10,
                        ));
                    }
                }
            }
        }
    } else {
        proof {
            if line.len() >= 7 {
                assert(line.subrange(0, 7) =~= cs@.subrange(pos as int, pos + 7));
            }
        }
    }
}

/// Sets in `env` every `BLACKJACK_*` variable that a line `export NAME=VALUE` of `text` names,
/// line by line, the value without the single quotes at its ends.
pub fn apply_exports(text: &str, env: &mut Env)
    ensures
        final(env)@ == parse_exports_spec(old(env)@, text@),
{
    let cs = chars_of(text);
    let export_word = vec!['e', 'x', 'p', 'o', 'r', 't', ' '];
    let prefix = vec!['B', 'L', 'A', 'C', 'K', 'J', 'A', 'C', 'K', '_'];
    proof {
        assert(export_word@ =~= export_prefix());
        assert(prefix@ =~= var_prefix());
    }
    let n = cs.len();
    let mut pos: usize = 0;
    proof {
        assert(cs@.subrange(0, n as int) =~= text@);
    }
    while pos < n
        invariant
            n == cs@.len(),
            cs@ == text@,
            pos <= n,
            export_word@ == export_prefix(),
            prefix@ == var_prefix(),
            parse_exports_spec(old(env)@, text@) == parse_exports_spec(
                env@,
                cs@.subrange(pos as int, n as int),
            ),
        decreases n - pos,
    {
        let ghost rest = cs@.subrange(pos as int, n as int);
        let nl = find_char(&cs, '\n', pos, n);
        proof {
            assert(cs@.subrange(0, n as int) =~= cs@);
            lemma_find_shift(cs@, '\n', pos as int, pos as int);
            lemma_find_bounds(cs@, '\n', pos as int);
        }
        let mut end = nl;
        if end > pos && cs[end - 1] == '\r' {
            end = end - 1;
        }
        proof {
            let rnl = find_from(rest, '\n', 0);
            assert(rnl + pos == nl);
            assert(rest.subrange(0, rnl) =~= cs@.subrange(pos as int, nl as int));
            assert(strip_cr(rest.subrange(0, rnl)) =~= cs@.subrange(pos as int, end as int));
        }
        apply_line(text, &cs, pos, end, env, &export_word, &prefix);
        proof {
            if nl < n {
                assert(rest.subrange(find_from(rest, '\n', 0) + 1, rest.len() as int) =~= cs@.subrange(
                    nl + 1,
                    n as int,
                ));
            }
        }
        if nl < n {
            pos = nl + 1;
        } else {
            pos = n;
        }
    }
}

} // verus!
