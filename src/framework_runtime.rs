//! Assembles the framework runtime from its files: each file may start with a
//! `requires(a.js, b.js);` line naming the files it needs, which come first.
//! Also joins the compiled files of a project into one bundle.
use vstd::prelude::*;
use itertools::Itertools;
use crate::errs::ProjectCompilationError;
use crate::text::{
    chars_of, joined, lemma_joined_push, push_char, push_joined, same_text, string_from, trim_bounds, trimmed,
};
use crate::tokeniser::starts_at;
use crate::tokeniser_utils::{lemma_until_end, until_end, until_end_at};

verus! {

/// The text that opens a dependency line.
pub open spec fn requires_prefix() -> Seq<char> {
    seq!['r', 'e', 'q', 'u', 'i', 'r', 'e', 's', '(']
}

/// A line without the carriage return that ended it.
pub open spec fn without_cr(line: Seq<char>) -> Seq<char> {
    if line.len() > 0 && line.last() == '\r' { line.drop_last() } else { line }
}

/// The lines of `s` from `i` on, as `str::lines` gives them: split at each
/// newline, a carriage return right before it dropped; a final newline does not
/// start another line.
pub open spec fn lines_from(s: Seq<char>, i: int) -> Seq<Seq<char>>
    decreases s.len() - i,
{
    if i < 0 || i >= s.len() {
        seq![]
    } else {
        let e = until_end(s, i, seq!['\n']);
        if i <= e < s.len() {
            seq![without_cr(s.subrange(i, e))] + lines_from(s, e + 1)
        } else {
            seq![s.subrange(i, s.len() as int)]
        }
    }
}

/// The pieces of `s` from `i` on between commas, empty ones included.
pub open spec fn comma_pieces(s: Seq<char>, i: int) -> Seq<Seq<char>>
    decreases s.len() - i,
{
    if i < 0 || i > s.len() {
        seq![]
    } else {
        let e = until_end(s, i, seq![',']);
        if i <= e < s.len() {
            seq![s.subrange(i, e)] + comma_pieces(s, e + 1)
        } else {
            seq![s.subrange(i, s.len() as int)]
        }
    }
}

/// `s[i..]` with every `);` taken out.
pub open spec fn strip_close_call(s: Seq<char>, i: int) -> Seq<char>
    decreases s.len() - i,
{
    if i < 0 || i >= s.len() {
        seq![]
    } else if i + 1 < s.len() && s[i] == ')' && s[i + 1] == ';' {
        strip_close_call(s, i + 2)
    } else {
        seq![s[i]] + strip_close_call(s, i + 1)
    }
}

/// The files a framework file depends on: when it starts with `requires(`, the
/// comma-separated names on its first line, trimmed, with `requires(` and `);`
/// taken out; else none.
pub open spec fn dependencies_of(content: Seq<char>) -> Seq<Seq<char>> {
    if starts_at(content, 0, requires_prefix()) {
        let line = lines_from(content, 0)[0];
        comma_pieces(strip_close_call(line.subrange(9, line.len() as int), 0), 0).map_values(|p: Seq<char>| trimmed(p))
    } else {
        seq![]
    }
}

/// A framework file without its dependency line.
pub open spec fn without_requires(text: Seq<char>) -> Seq<char> {
    if starts_at(text, 0, requires_prefix()) {
        joined(lines_from(text, 0).drop_first(), seq!['\n'])
    } else {
        text
    }
}

/// Where the line that starts at `i` ends (at its newline or the end of the text).
fn line_end(v: &Vec<char>, i: usize) -> (r: usize)
    requires
        i <= v.len(),
    ensures
        r == until_end(v@, i as int, seq!['\n']),
        i <= r <= v.len(),
{
    let nl = vec!['\n'];
    assert(nl@ =~= seq!['\n']);
    until_end_at(v, i, &nl)
}

/// The lines of `v`.
fn lines_of(v: &Vec<char>) -> (r: Vec<String>)
    ensures
        r@.map_values(|l: String| l@) == lines_from(v@, 0),
{
    let mut r: Vec<String> = Vec::new();
    let mut i: usize = 0;
    let mut more = v.len() > 0;
    while more
        invariant
            i <= v.len(),
            more ==> i < v.len(),
            more ==> lines_from(v@, 0) == r@.map_values(|l: String| l@) + lines_from(v@, i as int),
            !more ==> lines_from(v@, 0) == r@.map_values(|l: String| l@),
        decreases v.len() - i + if more { 1int } else { 0int },
    {
        let e = line_end(v, i);
        let ghost before = r@.map_values(|l: String| l@);
        if e < v.len() {
            let end = if e > i && v[e - 1] == '\r' { e - 1 } else { e };
            proof {
                let piece = v@.subrange(i as int, e as int);
                if e > i && v@[e - 1] == '\r' {
                    assert(piece.drop_last() =~= v@.subrange(i as int, end as int));
                } else {
                    assert(piece =~= v@.subrange(i as int, end as int));
                }
            }
            r.push(string_from(v, i, end));
            assert(r@.map_values(|l: String| l@) =~= before.push(without_cr(v@.subrange(i as int, e as int))));
            i = e + 1;
            if i >= v.len() {
                more = false;
            }
        } else {
            r.push(string_from(v, i, v.len()));
            assert(r@.map_values(|l: String| l@) =~= before.push(v@.subrange(i as int, v.len() as int)));
            more = false;
        }
    }
    r
}

/// `v[i..]` with every `);` taken out.
fn strip_close_call_exec(v: &Vec<char>, i: usize) -> (r: String)
    requires
        i <= v.len(),
    ensures
        r@ == strip_close_call(v@, i as int),
{
    let mut r = String::new();
    let mut k = i;
    while k < v.len()
        invariant
            i <= k <= v.len(),
            r@ + strip_close_call(v@, k as int) == strip_close_call(v@, i as int),
        decreases v.len() - k,
    {
        if k + 1 < v.len() && v[k] == ')' && v[k + 1] == ';' {
            k = k + 2;
        } else {
            let ghost before = r@;
            push_char(&mut r, v[k]);
            assert(before + strip_close_call(v@, k as int) =~= r@ + strip_close_call(v@, k + 1));
            k = k + 1;
        }
    }
    assert(r@ + seq![] =~= r@);
    r
}

/// The files that a framework file depends on, as its `requires(...);` line names them.
pub fn parse_framework_file_dependencies(file_content: &str) -> (r: Vec<String>)
    ensures
        r@.map_values(|d: String| d@) == dependencies_of(file_content@),
{
    let v = chars_of(file_content);
    let prefix = chars_of("requires(");
    proof {
        reveal_strlit("requires(");
        assert(prefix@ =~= requires_prefix());
    }
    let mut r: Vec<String> = Vec::new();
    if !crate::text::matches_at(&v, 0, &prefix) {
        assert(r@.map_values(|d: String| d@) =~= seq![]);
        return r;
    }
    let lines = lines_of(&v);
    assert(lines_from(v@, 0).len() > 0);
    let line = chars_of(lines[0].as_str());
    assert(line@ == lines_from(v@, 0)[0]);
    assert(line.len() >= 9) by {
        assert(until_end(v@, 0, seq!['\n']) >= 9) by {
            assert forall|k: int| 0 <= k < 9 implies !seq!['\n'].contains(#[trigger] v@[k]) by {
                assert(v@.subrange(0, 9)[k] == requires_prefix()[k]);
                if seq!['\n'].contains(v@[k]) {
                    assert(seq!['\n'][0] == v@[k]);
                }
            }
            lemma_until_end_prefix(v@, 0, 9, seq!['\n']);
        }
        lemma_until_end(v@, 0, seq!['\n']);
    }
    let rest_text = string_from(&line, 9, line.len());
    let rest_v = chars_of(rest_text.as_str());
    let stripped_text = strip_close_call_exec(&rest_v, 0);
    assert(stripped_text@ == strip_close_call(line@.subrange(9, line@.len() as int), 0));
    let s = chars_of(stripped_text.as_str());
    let comma = vec![','];
    assert(comma@ =~= seq![',']);
    let ghost pieces = comma_pieces(s@, 0);
    let ghost done: Seq<Seq<char>> = seq![];
    let mut i: usize = 0;
    let mut more = true;
    while more
        invariant
            i <= s.len(),
            comma@ == seq![','],
            pieces == comma_pieces(s@, 0),
            more ==> pieces == done + comma_pieces(s@, i as int),
            !more ==> pieces == done,
            r@.map_values(|d: String| d@) == done.map_values(|p: Seq<char>| trimmed(p)),
        decreases s.len() - i + if more { 1int } else { 0int },
    {
        let e = until_end_at(&s, i, &comma);
        let (a, b) = trim_bounds(&s, i, e);
        let ghost before = r@.map_values(|d: String| d@);
        let t = string_from(&s, a, b);
        proof { lemma_trim_range(s@, i as int, e as int); }
        assert(t@ == trimmed(s@.subrange(i as int, e as int)));
        r.push(t);
        proof {
            let piece = s@.subrange(i as int, e as int);
            let old_done = done;
            assert(r@.map_values(|d: String| d@) =~= before.push(trimmed(piece)));
            done = done.push(piece);
            assert(done.map_values(|p: Seq<char>| trimmed(p)) =~= old_done.map_values(|p: Seq<char>| trimmed(p)).push(trimmed(piece)));
            assert(r@.map_values(|d: String| d@) =~= done.map_values(|p: Seq<char>| trimmed(p)));
            if e < s.len() {
                assert(old_done + comma_pieces(s@, i as int) =~= done + comma_pieces(s@, e + 1));
            } else {
                assert(old_done + comma_pieces(s@, i as int) =~= done);
            }
        }
        if e < s.len() {
            i = e + 1;
        } else {
            more = false;
        }
    }
    r
}

proof fn lemma_until_end_prefix(s: Seq<char>, i: int, j: int, stops: Seq<char>)
    requires
        0 <= i <= j <= s.len(),
        forall|k: int| i <= k < j ==> !stops.contains(#[trigger] s[k]),
    ensures
        until_end(s, i, stops) >= j,
    decreases j - i,
{
    if i < j {
        lemma_until_end_prefix(s, i + 1, j, stops);
    } else {
        lemma_until_end(s, i, stops);
    }
}

/// Trimming a range of `s` in place gives the trimmed text of the range.
proof fn lemma_trim_range(s: Seq<char>, from: int, to: int)
    requires
        0 <= from <= to <= s.len(),
    ensures
        s.subrange(
            crate::text::skip_white_forward(s, from, to),
            crate::text::skip_white_backward(s, crate::text::skip_white_forward(s, from, to), to),
        ) == trimmed(s.subrange(from, to)),
{
    let p = s.subrange(from, to);
    lemma_forward_shift(s, from, from, to);
    let a = crate::text::skip_white_forward(s, from, to);
    lemma_backward_shift(s, from, a, to);
    assert(s.subrange(a, crate::text::skip_white_backward(s, a, to))
        =~= p.subrange(a - from, crate::text::skip_white_backward(s, a, to) - from));
}

proof fn lemma_forward_shift(s: Seq<char>, from: int, k: int, to: int)
    requires
        0 <= from <= k <= to <= s.len(),
    ensures
        crate::text::skip_white_forward(s, k, to)
            == from + crate::text::skip_white_forward(s.subrange(from, to), k - from, to - from),
        from <= crate::text::skip_white_forward(s, k, to) <= to,
    decreases to - k,
{
    if k < to {
        assert(s.subrange(from, to)[k - from] == s[k]);
        lemma_forward_shift(s, from, k + 1, to);
    }
}

proof fn lemma_backward_shift(s: Seq<char>, from: int, a: int, to: int)
    requires
        0 <= from <= a <= to <= s.len(),
    ensures
        crate::text::skip_white_backward(s, a, to)
            == from + crate::text::skip_white_backward(s.subrange(from, to), a - from, to - from),
        a <= crate::text::skip_white_backward(s, a, to) <= to,
    decreases to - a,
{
    if a < to {
        assert(s.subrange(from, to)[to - 1 - from] == s[to - 1]);
        lemma_backward_shift_inner(s, from, a, to, to);
    }
}

proof fn lemma_backward_shift_inner(s: Seq<char>, from: int, a: int, to: int, b: int)
    requires
        0 <= from <= a <= b <= to <= s.len(),
    ensures
        crate::text::skip_white_backward(s, a, b)
            == from + crate::text::skip_white_backward(s.subrange(from, to), a - from, b - from),
        a <= crate::text::skip_white_backward(s, a, b) <= b,
    decreases b - a,
{
    if a < b {
        assert(s.subrange(from, to)[b - 1 - from] == s[b - 1]);
        lemma_backward_shift_inner(s, from, a, to, b - 1);
    }
}

/// Removes the dependency line from the start of a framework file, if it has one.
pub fn remove_require_statement(text: &str) -> (r: String)
    ensures
        r@ == without_requires(text@),
{
    let v = chars_of(text);
    let prefix = chars_of("requires(");
    proof {
        reveal_strlit("requires(");
        assert(prefix@ =~= requires_prefix());
    }
    if !crate::text::matches_at(&v, 0, &prefix) {
        return text.to_owned();
    }
    let lines = lines_of(&v);
    let ghost parts = lines@.map_values(|l: String| l@).drop_first();
    let mut r = String::new();
    let mut k: usize = 1;
    assert(lines@.len() > 0);
    assert(parts.subrange(0, 0) =~= seq![]);
    while k < lines.len()
        invariant
            1 <= k <= lines.len(),
            parts == lines@.map_values(|l: String| l@).drop_first(),
            r@ == joined(parts.subrange(0, k - 1), seq!['\n']),
        decreases lines.len() - k,
    {
        proof { reveal_strlit("\n"); }
        assert("\n"@ =~= seq!['\n']);
        push_joined(&mut r, k == 1, "\n", lines[k].as_str());
        proof {
            lemma_joined_push(parts.subrange(0, k - 1), lines@[k as int]@, seq!['\n']);
            assert(parts.subrange(0, k - 1).push(lines@[k as int]@) =~= parts.subrange(0, k as int));
        }
        k = k + 1;
    }
    assert(parts.subrange(0, k - 1) =~= parts);
    r
}

/// The content of the first file named `name`.
pub open spec fn file_content(files: Seq<(Seq<char>, Seq<char>)>, name: Seq<char>) -> Option<Seq<char>>
    decreases files.len(),
{
    if files.len() == 0 {
        None
    } else if files[0].0 == name {
        Some(files[0].1)
    } else {
        file_content(files.drop_first(), name)
    }
}

/// What a list of named files holds.
pub open spec fn files_view(files: Seq<(String, String)>) -> Seq<(Seq<char>, Seq<char>)> {
    files.map_values(|f: (String, String)| (f.0@, f.1@))
}

/// Why the framework files cannot be put in order.
pub enum OrderError {
    Missing(Seq<char>),
    Cycle(Seq<char>),
}

/// Whether `e` is the error that `m` describes.
pub open spec fn order_error_is(e: ProjectCompilationError, m: OrderError) -> bool {
    match m {
        OrderError::Missing(n) => e matches ProjectCompilationError::MissingFrameworkFile { name } && name@ == n,
        OrderError::Cycle(n) => e matches ProjectCompilationError::FrameworkDependencyCycle { name } && name@ == n,
    }
}

/// The files that must come before those that depend on `deps`, each before the
/// files that depend on it: for each dependency in turn, its own dependencies,
/// then itself. A dependency that is not among the files fails; so does a chain
/// of dependencies longer than `depth`, which can only be a circle when `depth`
/// is the number of files.
pub open spec fn dependency_order(files: Seq<(Seq<char>, Seq<char>)>, deps: Seq<Seq<char>>, depth: nat)
    -> Result<Seq<Seq<char>>, OrderError>
    decreases depth, deps.len(),
{
    if deps.len() == 0 {
        Ok(seq![])
    } else {
        match dependency_order(files, deps.drop_last(), depth) {
            Err(e) => Err(e),
            Ok(before) => match file_content(files, deps.last()) {
                None => Err(OrderError::Missing(deps.last())),
                Some(c) => if depth == 0 {
                    Err(OrderError::Cycle(deps.last()))
                } else {
                    match dependency_order(files, dependencies_of(c), (depth - 1) as nat) {
                        Err(e) => Err(e),
                        Ok(sub) => Ok(before + sub + seq![deps.last()]),
                    }
                },
            },
        }
    }
}

/// Finds the content of the first file named `name`.
fn find_file(files: &Vec<(String, String)>, name: &str) -> (r: Option<String>)
    ensures
        r matches Some(c) ==> file_content(files_view(files@), name@) == Some(c@),
        r is None ==> file_content(files_view(files@), name@) is None,
{
    let ghost fv = files_view(files@);
    let mut k: usize = 0;
    assert(fv.subrange(0, fv.len() as int) =~= fv);
    while k < files.len()
        invariant
            k <= files.len(),
            fv == files_view(files@),
            file_content(fv, name@) == file_content(fv.subrange(k as int, fv.len() as int), name@),
        decreases files.len() - k,
    {
        let ghost rest = fv.subrange(k as int, fv.len() as int);
        assert(rest.drop_first() =~= fv.subrange(k + 1, fv.len() as int));
        if same_text(files[k].0.as_str(), name) {
            return Some(files[k].1.clone());
        }
        k = k + 1;
    }
    None
}

/// Appends, for each of `file_dependencies` in turn, the files it depends on and
/// then itself, so that each file comes after those it needs.
pub fn add_dependencies_for_file(
    file_dependencies: &Vec<String>,
    file_map: &Vec<(String, String)>,
    dependency_accumulator: &mut Vec<String>,
    depth: usize,
) -> (r: Result<(), ProjectCompilationError>)
    ensures
        match dependency_order(files_view(file_map@), file_dependencies@.map_values(|d: String| d@), depth as nat) {
            Ok(order) => r is Ok && final(dependency_accumulator)@.map_values(|d: String| d@)
                == old(dependency_accumulator)@.map_values(|d: String| d@) + order,
            Err(m) => r matches Err(e) && order_error_is(e, m),
        },
    decreases depth,
{
    let ghost fv = files_view(file_map@);
    let ghost deps = file_dependencies@.map_values(|d: String| d@);
    let ghost acc0 = dependency_accumulator@.map_values(|d: String| d@);
    let mut k: usize = 0;
    assert(deps.subrange(0, 0) =~= seq![]);
    while k < file_dependencies.len()
        invariant
            k <= file_dependencies.len(),
            fv == files_view(file_map@),
            deps == file_dependencies@.map_values(|d: String| d@),
            dependency_order(fv, deps.subrange(0, k as int), depth as nat) matches Ok(order)
                && dependency_accumulator@.map_values(|d: String| d@) == acc0 + order,
        decreases file_dependencies.len() - k,
    {
        let ghost prefix = deps.subrange(0, k + 1);
        assert(prefix.drop_last() =~= deps.subrange(0, k as int));
        assert(prefix.last() == file_dependencies@[k as int]@);
        let file = &file_dependencies[k];
        let content = match find_file(file_map, file.as_str()) {
            Some(c) => c,
            None => {
                proof { lemma_order_err_extends(fv, deps, k as nat + 1, depth as nat); }
                return Err(ProjectCompilationError::MissingFrameworkFile { name: file.clone() });
            },
        };
        if depth == 0 {
            proof { lemma_order_err_extends(fv, deps, k as nat + 1, depth as nat); }
            return Err(ProjectCompilationError::FrameworkDependencyCycle { name: file.clone() });
        }
        let sub = parse_framework_file_dependencies(content.as_str());
        let ghost mid = dependency_accumulator@.map_values(|d: String| d@);
        match add_dependencies_for_file(&sub, file_map, dependency_accumulator, depth - 1) {
            Ok(()) => {},
            Err(e) => {
                proof { lemma_order_err_extends(fv, deps, k as nat + 1, depth as nat); }
                return Err(e);
            },
        }
        let ghost after = dependency_accumulator@.map_values(|d: String| d@);
        dependency_accumulator.push(file.clone());
        assert(dependency_accumulator@.map_values(|d: String| d@) =~= after.push(file@));
        k = k + 1;
    }
    assert(deps.subrange(0, k as int) =~= deps);
    Ok(())
}

/// Once the order of a prefix of the dependencies fails, that of a longer one
/// fails the same way.
proof fn lemma_order_err_extends(files: Seq<(Seq<char>, Seq<char>)>, deps: Seq<Seq<char>>, n: nat, depth: nat)
    requires
        n <= deps.len(),
        dependency_order(files, deps.subrange(0, n as int), depth) is Err,
    ensures
        dependency_order(files, deps, depth) == dependency_order(files, deps.subrange(0, n as int), depth),
    decreases deps.len() - n,
{
    if n < deps.len() {
        assert(deps.subrange(0, n as int + 1).drop_last() =~= deps.subrange(0, n as int));
        lemma_order_err_extends(files, deps, n + 1, depth);
    } else {
        assert(deps.subrange(0, n as int) =~= deps);
    }
}

/// The items in order, each kept only where it does not occur earlier.
pub open spec fn first_occurrences(s: Seq<Seq<char>>) -> Seq<Seq<char>>
    decreases s.len(),
{
    if s.len() == 0 {
        seq![]
    } else if s.drop_last().contains(s.last()) {
        first_occurrences(s.drop_last())
    } else {
        first_occurrences(s.drop_last()).push(s.last())
    }
}

/// Relies on `Itertools::unique`: it keeps, in order, the first of each set of
/// equal items.
#[verifier::external_body]
fn unique_names(names: &Vec<String>) -> (r: Vec<String>)
    ensures
        r@.map_values(|n: String| n@) == first_occurrences(names@.map_values(|n: String| n@)),
{
    names.iter().cloned().unique().collect()
}

/// The order of the framework files: for each file in turn, the files it
/// depends on (see `dependency_order`), then itself.
pub open spec fn runtime_order(files: Seq<(Seq<char>, Seq<char>)>, k: nat) -> Result<Seq<Seq<char>>, OrderError>
    decreases k,
{
    if k == 0 {
        Ok(seq![])
    } else {
        match runtime_order(files, (k - 1) as nat) {
            Err(e) => Err(e),
            Ok(acc) => match dependency_order(files, dependencies_of(files[k - 1].1), files.len()) {
                Err(e) => Err(e),
                Ok(o) => Ok(acc + o + seq![files[k - 1].0]),
            },
        }
    }
}

/// The content of the first file named `name`, empty if there is none.
pub open spec fn content_or_empty(files: Seq<(Seq<char>, Seq<char>)>, name: Seq<char>) -> Seq<char> {
    match file_content(files, name) {
        Some(c) => c,
        None => seq![],
    }
}

/// The framework runtime: the files in dependency order, each once, without
/// their dependency lines, one after another on separate lines.
pub open spec fn runtime_text(files: Seq<(Seq<char>, Seq<char>)>) -> Result<Seq<char>, OrderError> {
    match runtime_order(files, files.len()) {
        Err(e) => Err(e),
        Ok(order) => Ok(joined(
            first_occurrences(order).map_values(|n: Seq<char>| without_requires(content_or_empty(files, n))),
            seq!['\n'],
        )),
    }
}

/// Builds the framework runtime from its files, given as (name, content) pairs.
pub fn build_framework_runtime(files: &Vec<(String, String)>) -> (r: Result<String, ProjectCompilationError>)
    ensures
        match runtime_text(files_view(files@)) {
            Ok(t) => r matches Ok(x) && x@ == t,
            Err(m) => r matches Err(e) && order_error_is(e, m),
        },
{
    let ghost fv = files_view(files@);
    let mut file_order: Vec<String> = Vec::new();
    let mut k: usize = 0;
    assert(file_order@.map_values(|d: String| d@) =~= seq![]);
    while k < files.len()
        invariant
            k <= files.len(),
            fv == files_view(files@),
            runtime_order(fv, k as nat) matches Ok(order) && file_order@.map_values(|d: String| d@) == order,
        decreases files.len() - k,
    {
        let deps = parse_framework_file_dependencies(files[k].1.as_str());
        assert(fv[k as int].1 == files@[k as int].1@);
        match add_dependencies_for_file(&deps, files, &mut file_order, files.len()) {
            Ok(()) => {},
            Err(e) => {
                proof { lemma_runtime_err_extends(fv, k as nat + 1); }
                return Err(e);
            },
        }
        let ghost mid = file_order@.map_values(|d: String| d@);
        file_order.push(files[k].0.clone());
        assert(file_order@.map_values(|d: String| d@) =~= mid.push(fv[k as int].0));
        k = k + 1;
    }
    let names = unique_names(&file_order);
    let ghost parts = names@.map_values(|n: String| n@).map_values(
        |n: Seq<char>| without_requires(content_or_empty(fv, n)),
    );
    let mut r = String::new();
    let mut j: usize = 0;
    while j < names.len()
        invariant
            j <= names.len(),
            fv == files_view(files@),
            parts == names@.map_values(|n: String| n@).map_values(
                |n: Seq<char>| without_requires(content_or_empty(fv, n)),
            ),
            r@ == joined(parts.subrange(0, j as int), seq!['\n']),
        decreases names.len() - j,
    {
        let content = match find_file(files, names[j].as_str()) {
            Some(c) => c,
            None => String::new(),
        };
        let text = remove_require_statement(content.as_str());
        assert(text@ == parts[j as int]);
        proof { reveal_strlit("\n"); }
        assert("\n"@ =~= seq!['\n']);
        push_joined(&mut r, j == 0, "\n", text.as_str());
        proof {
            lemma_joined_push(parts.subrange(0, j as int), text@, seq!['\n']);
            assert(parts.subrange(0, j as int).push(text@) =~= parts.subrange(0, j + 1));
        }
        j = j + 1;
    }
    assert(parts.subrange(0, j as int) =~= parts);
    Ok(r)
}

/// Once the order of the first files fails, that of all of them fails the same way.
proof fn lemma_runtime_err_extends(files: Seq<(Seq<char>, Seq<char>)>, n: nat)
    requires
        n <= files.len(),
        runtime_order(files, n) is Err,
    ensures
        runtime_order(files, files.len()) == runtime_order(files, n),
    decreases files.len() - n,
{
    if n < files.len() {
        lemma_runtime_err_extends(files, n + 1);
    }
}

/// Joins the compiled files of a project into one bundle.
pub fn bundle_compiled_files(compiled_files: &Vec<String>) -> (r: String)
    ensures
        r@ == joined(compiled_files@.map_values(|f: String| f@), ";\n"@),
{
    let ghost parts = compiled_files@.map_values(|f: String| f@);
    let mut r = String::new();
    let mut k: usize = 0;
    while k < compiled_files.len()
        invariant
            k <= compiled_files.len(),
            parts == compiled_files@.map_values(|f: String| f@),
            r@ == joined(parts.subrange(0, k as int), ";\n"@),
        decreases compiled_files.len() - k,
    {
        push_joined(&mut r, k == 0, ";\n", compiled_files[k].as_str());
        proof {
            lemma_joined_push(parts.subrange(0, k as int), parts[k as int], ";\n"@);
            assert(parts.subrange(0, k as int).push(parts[k as int]) =~= parts.subrange(0, k + 1));
        }
        k = k + 1;
    }
    assert(parts.subrange(0, k as int) =~= parts);
    r
}

} // verus!
