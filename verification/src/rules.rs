use vstd::prelude::*;
use crate::errors::FlattenError;

verus! {

use vstd::string::StrSliceExecFns;

/// How a gitignore-style rule set classifies one relative path.
#[derive(Clone, Copy, Debug, PartialEq, Eq, Structural)]
pub enum MatchKind {
    /// No rule speaks of the path.
    NoMatch,
    /// The path is excluded.
    Ignored,
    /// The path is re-included by a negated pattern.
    Whitelisted,
}

#[verifier::external_type_specification]
#[verifier::external_body]
pub struct ExGitignoreBuilder(ignore::gitignore::GitignoreBuilder);

#[verifier::external_type_specification]
#[verifier::external_body]
pub struct ExGitignore(ignore::gitignore::Gitignore);

#[verifier::external_type_specification]
#[verifier::external_body]
pub struct ExIgnoreError(ignore::Error);

/// The glob lines added to a builder so far, in order.
pub uninterp spec fn builder_lines(b: ignore::gitignore::GitignoreBuilder) -> Seq<Seq<char>>;

/// The glob lines a built matcher decides by, in order.
pub uninterp spec fn matcher_lines(g: ignore::gitignore::Gitignore) -> Seq<Seq<char>>;

/// The verdict of gitignore matching: a function of the glob lines, the
/// relative path and the directory flag alone.
pub uninterp spec fn rules_verdict(lines: Seq<Seq<char>>, path: Seq<char>, is_dir: bool) -> MatchKind;

/// Whether a pattern line parses as a glob: a function of the line alone.
pub uninterp spec fn glob_ok(line: Seq<char>) -> bool;

/// Whether a list of glob lines compiles into a matcher: a function of the
/// lines alone.
pub uninterp spec fn build_ok(lines: Seq<Seq<char>>) -> bool;

/// The characters `char::is_whitespace` accepts: the Unicode white-space
/// set.
pub open spec fn spec_whitespace(c: char) -> bool {
    c == ' ' || c == '\t' || c == '\n' || c == '\u{000B}' || c == '\u{000C}' || c == '\r' || c
        == '\u{0085}' || c == '\u{00A0}' || c == '\u{1680}' || (0x2000 <= c as u32 && c as u32
        <= 0x200A) || c == '\u{2028}' || c == '\u{2029}' || c == '\u{202F}' || c == '\u{205F}' || c
        == '\u{3000}'
}

/// Whether a character is Unicode white space.
pub fn is_space_char(c: char) -> (r: bool)
    ensures
        r == spec_whitespace(c),
{
    c == ' ' || c == '\t' || c == '\n' || c == '\u{000B}' || c == '\u{000C}' || c == '\r' || c
        == '\u{0085}' || c == '\u{00A0}' || c == '\u{1680}' || (0x2000 <= c as u32 && c as u32
        <= 0x200A) || c == '\u{2028}' || c == '\u{2029}' || c == '\u{202F}' || c == '\u{205F}' || c
        == '\u{3000}'
}

/// A line ending in a backslash-escaped space, which gitignore keeps as is.
pub open spec fn ends_backslash_space(l: Seq<char>) -> bool {
    l.len() >= 2 && l[l.len() - 2] == '\\' && l[l.len() - 1] == ' '
}

/// The line with its trailing white space removed.
pub open spec fn right_trimmed(l: Seq<char>) -> Seq<char>
    decreases l.len(),
{
    if l.len() > 0 && spec_whitespace(l.last()) {
        right_trimmed(l.drop_last())
    } else {
        l
    }
}

/// What gitignore stores of a raw line: the line itself when it ends in an
/// escaped space, else the line with trailing white space removed.
pub open spec fn trim_line(l: Seq<char>) -> Seq<char> {
    if ends_backslash_space(l) {
        l
    } else {
        right_trimmed(l)
    }
}

/// A pattern line as the matcher stores it: nonempty, no leading `#`, and
/// already fixed under trailing-white-space trimming.
pub open spec fn wf_pattern(t: Seq<char>) -> bool {
    t.len() > 0 && t[0] != '#' && (ends_backslash_space(t) || !spec_whitespace(t[t.len() - 1]))
}

/// A well-formed relative path: not rooted and without a `./` prefix.
pub open spec fn wf_rel_path(p: Seq<char>) -> bool {
    (p.len() == 0 || p[0] != '/') && !(p.len() >= 2 && p[0] == '.' && p[1] == '/')
}

/// Trimming shortens a line to one of its prefixes, and what remains does
/// not end in white space.
pub proof fn lemma_right_trimmed(l: Seq<char>)
    ensures
        right_trimmed(l).len() <= l.len(),
        right_trimmed(l) == l.take(right_trimmed(l).len() as int),
        right_trimmed(l).len() > 0 ==> !spec_whitespace(right_trimmed(l)[right_trimmed(l).len() - 1]),
    decreases l.len(),
{
    if l.len() > 0 && spec_whitespace(l.last()) {
        lemma_right_trimmed(l.drop_last());
        assert(l.drop_last().take(right_trimmed(l).len() as int) =~= l.take(
            right_trimmed(l).len() as int,
        ));
    } else {
        assert(l.take(l.len() as int) =~= l);
    }
}

/// A kept line's stored pattern is well formed.
pub proof fn lemma_trim_line_wf(l: Seq<char>)
    requires
        keep_line(l),
    ensures
        wf_pattern(trim_line(l)),
{
    if !ends_backslash_space(l) {
        lemma_right_trimmed(l);
    }
}

/// Relies on ignore::gitignore::GitignoreBuilder::new: a fresh builder holds
/// no glob lines.  The empty root makes every pattern match against relative
/// paths exactly as they are given.
#[verifier::external_body]
fn new_builder() -> (b: ignore::gitignore::GitignoreBuilder)
    ensures
        builder_lines(b) == Seq::<Seq<char>>::empty(),
{
    ignore::gitignore::GitignoreBuilder::new("")
}

/// Relies on ignore::gitignore::GitignoreBuilder::add_line.  The
/// precondition keeps out the lines add_line drops or rewrites (comments,
/// blanks, trailing white space): for the admitted lines, success means the
/// line was stored exactly as given, success depends on the line alone, and
/// a glob parse error leaves the builder unchanged.
#[verifier::external_body]
fn builder_add_line(b: &mut ignore::gitignore::GitignoreBuilder, line: &str) -> (r: Result<
    (),
    ignore::Error,
>)
    requires
        wf_pattern(line@),
    ensures
        r is Ok <==> glob_ok(line@),
        r is Ok ==> builder_lines(*final(b)) == builder_lines(*old(b)).push(line@),
        r is Err ==> builder_lines(*final(b)) == builder_lines(*old(b)),
{
    match b.add_line(None, line) {
        Ok(_) => Ok(()),
        Err(e) => Err(e),
    }
}

/// Relies on ignore::gitignore::GitignoreBuilder::build: the matcher decides
/// by exactly the glob lines added so far, and whether compilation succeeds
/// depends on those lines alone.
#[verifier::external_body]
fn builder_build(b: &ignore::gitignore::GitignoreBuilder) -> (r: Result<
    ignore::gitignore::Gitignore,
    ignore::Error,
>)
    ensures
        r is Ok <==> build_ok(builder_lines(*b)),
        r matches Ok(g) ==> matcher_lines(g) == builder_lines(*b),
{
    b.build()
}

/// Relies on ignore::gitignore::Gitignore::matched_path_or_any_parents: the
/// verdict for a path is a function of the glob lines, the path and the
/// directory flag alone, and a matcher built from no lines matches nothing.
/// The method panics when the path is still rooted after it strips a leading
/// `./` and one leading `/`; the precondition rules such paths out.
#[verifier::external_body]
fn matcher_verdict(g: &ignore::gitignore::Gitignore, path: &str, is_dir: bool) -> (r: MatchKind)
    requires
        wf_rel_path(path@),
    ensures
        r == rules_verdict(matcher_lines(*g), path@, is_dir),
        matcher_lines(*g).len() == 0 ==> r is NoMatch,
{
    match g.matched_path_or_any_parents(path, is_dir) {
        ignore::Match::None => MatchKind::NoMatch,
        ignore::Match::Ignore(_) => MatchKind::Ignored,
        ignore::Match::Whitelist(_) => MatchKind::Whitelisted,
    }
}

/// An ignore-file line carries a pattern: after trimming it is neither
/// blank nor a comment.
pub open spec fn keep_line(l: Seq<char>) -> bool {
    trim_line(l).len() > 0 && trim_line(l)[0] != '#'
}

/// One pass over the characters of an ignore file: the pattern lines
/// finished so far, and the line being read.
pub open spec fn parse_state(s: Seq<char>) -> (Seq<Seq<char>>, Seq<char>)
    decreases s.len(),
{
    if s.len() == 0 {
        (Seq::<Seq<char>>::empty(), Seq::<char>::empty())
    } else {
        let prev = parse_state(s.drop_last());
        if s.last() == '\n' {
            (
                if keep_line(prev.1) {
                    prev.0.push(trim_line(prev.1))
                } else {
                    prev.0
                },
                Seq::<char>::empty(),
            )
        } else {
            (prev.0, prev.1.push(s.last()))
        }
    }
}

/// The pattern lines of an ignore file: one glob per line, trailing white
/// space trimmed, with blank lines and lines beginning with `#` skipped.
pub open spec fn pattern_lines(s: Seq<char>) -> Seq<Seq<char>> {
    let st = parse_state(s);
    if keep_line(st.1) {
        st.0.push(trim_line(st.1))
    } else {
        st.0
    }
}

/// Every pattern an ignore file yields is well formed.
pub proof fn lemma_parse_state_wf(s: Seq<char>)
    ensures
        forall|k: int| 0 <= k < parse_state(s).0.len() ==> wf_pattern(
            #[trigger] parse_state(s).0[k],
        ),
    decreases s.len(),
{
    if s.len() > 0 {
        lemma_parse_state_wf(s.drop_last());
        let prev = parse_state(s.drop_last());
        if s.last() == '\n' && keep_line(prev.1) {
            lemma_trim_line_wf(prev.1);
            assert forall|k: int| 0 <= k < parse_state(s).0.len() implies wf_pattern(
                #[trigger] parse_state(s).0[k],
            ) by {
                if k < prev.0.len() {
                    assert(parse_state(s).0[k] == prev.0[k]);
                } else {
                    assert(parse_state(s).0[k] == trim_line(prev.1));
                }
            }
        } else {
            assert(parse_state(s).0 == prev.0);
        }
    }
}

/// Every pattern an ignore file yields is well formed.
pub proof fn lemma_pattern_lines_wf(s: Seq<char>)
    ensures
        forall|k: int| 0 <= k < pattern_lines(s).len() ==> wf_pattern(#[trigger] pattern_lines(s)[k]),
{
    lemma_parse_state_wf(s);
    if keep_line(parse_state(s).1) {
        lemma_trim_line_wf(parse_state(s).1);
    }
}

/// Extracts the pattern of one raw line, the characters at `start..end`:
/// trailing white space is trimmed unless the line ends in an escaped space,
/// and a line that is then blank or begins with `#` yields nothing.
fn take_pattern(content: &str, start: usize, end: usize) -> (r: Option<String>)
    requires
        start <= end <= content@.len(),
    ensures
        match r {
            Some(t) => keep_line(content@.subrange(start as int, end as int)) && t@ == trim_line(
                content@.subrange(start as int, end as int),
            ),
            None => !keep_line(content@.subrange(start as int, end as int)),
        },
{
    let ghost l = content@.subrange(start as int, end as int);
    let escaped = end - start >= 2 && content.get_char(end - 2) == '\\' && content.get_char(end - 1)
        == ' ';
    proof {
        assert(escaped == ends_backslash_space(l));
    }
    let mut e = end;
    if !escaped {
        while e > start && is_space_char(content.get_char(e - 1))
            invariant
                start <= e <= end <= content@.len(),
                l == content@.subrange(start as int, end as int),
                right_trimmed(l) == right_trimmed(content@.subrange(start as int, e as int)),
            decreases e,
        {
            proof {
                assert(content@.subrange(start as int, e as int).last() == content@[e - 1]);
                assert(content@.subrange(start as int, e as int).drop_last() =~= content@.subrange(
                    start as int,
                    e - 1,
                ));
            }
            e -= 1;
        }
        proof {
            assert(right_trimmed(content@.subrange(start as int, e as int)) == content@.subrange(
                start as int,
                e as int,
            ));
        }
    }
    proof {
        assert(trim_line(l) == content@.subrange(start as int, e as int));
    }
    if e > start && content.get_char(start) != '#' {
        proof {
            assert(trim_line(l)[0] == content@[start as int]);
        }
        Some(content.substring_char(start, e).to_owned())
    } else {
        None
    }
}

/// The character sequences of a list of strings.
pub open spec fn lines_view(v: Seq<String>) -> Seq<Seq<char>> {
    v.map_values(|s: String| s@)
}

/// Splits the content of an ignore file into its pattern lines.
pub fn parse_patterns(content: &str) -> (r: Vec<String>)
    ensures
        lines_view(r@) == pattern_lines(content@),
{
    let n = content.unicode_len();
    let mut out: Vec<String> = Vec::new();
    let mut start: usize = 0;
    let mut i: usize = 0;
    while i < n
        invariant
            n == content@.len(),
            i <= n,
            start <= i,
            lines_view(out@) == parse_state(content@.take(i as int)).0,
            content@.subrange(start as int, i as int) == parse_state(content@.take(i as int)).1,
        decreases n - i,
    {
        let c = content.get_char(i);
        proof {
            assert(content@.take(i + 1).drop_last() =~= content@.take(i as int));
            assert(content@.take(i + 1).last() == content@[i as int]);
        }
        if c == '\n' {
            match take_pattern(content, start, i) {
                Some(t) => {
                    let ghost old_out = out@;
                    out.push(t);
                    proof {
                        assert(lines_view(out@) =~= lines_view(old_out).push(
                            trim_line(content@.subrange(start as int, i as int)),
                        ));
                    }
                },
                None => {},
            }
            start = i + 1;
            proof {
                assert(content@.subrange(start as int, i + 1) =~= Seq::<char>::empty());
            }
        } else {
            proof {
                assert(content@.subrange(start as int, i + 1) =~= content@.subrange(
                    start as int,
                    i as int,
                ).push(content@[i as int]));
            }
        }
        i += 1;
    }
    proof {
        assert(content@.take(n as int) =~= content@);
    }
    match take_pattern(content, start, n) {
        Some(t) => {
            let ghost old_out = out@;
            out.push(t);
            proof {
                assert(lines_view(out@) =~= lines_view(old_out).push(
                    trim_line(content@.subrange(start as int, n as int)),
                ));
            }
        },
        None => {},
    }
    out
}

/// The character sequence of an optional borrowed string.
pub open spec fn opt_str_view(o: Option<&str>) -> Option<Seq<char>> {
    match o {
        Some(s) => Some(s@),
        None => None,
    }
}

/// The effective rule lines of a run: the patterns of the project-local
/// ignore file first, then those of the external ignore file, so that the
/// external layer overrides the local one.
pub open spec fn resolved_lines(local: Option<Seq<char>>, external: Option<Seq<char>>) -> Seq<
    Seq<char>,
> {
    (match local {
        Some(s) => pattern_lines(s),
        None => Seq::<Seq<char>>::empty(),
    }) + (match external {
        Some(s) => pattern_lines(s),
        None => Seq::<Seq<char>>::empty(),
    })
}

/// Builds the rule matcher from the contents of the optional project-local
/// and external ignore files.  It succeeds exactly when every resolved
/// pattern parses as a glob and the set compiles; each error names its
/// cause.
pub fn resolve_rules(local_ignore: Option<&str>, external_ignore: Option<&str>) -> (r: Result<
    ignore::gitignore::Gitignore,
    FlattenError,
>)
    ensures
        r matches Ok(g) ==> matcher_lines(g) == resolved_lines(
            opt_str_view(local_ignore),
            opt_str_view(external_ignore),
        ),
        r is Ok <==> ({
            let resolved = resolved_lines(opt_str_view(local_ignore), opt_str_view(external_ignore));
            &&& forall|k: int| 0 <= k < resolved.len() ==> glob_ok(#[trigger] resolved[k])
            &&& build_ok(resolved)
        }),
        r matches Err(FlattenError::InvalidIgnorePattern { pattern }) ==> (resolved_lines(
            opt_str_view(local_ignore),
            opt_str_view(external_ignore),
        ).contains(pattern@) && !glob_ok(pattern@)),
        r matches Err(FlattenError::RuleCompilation) ==> !build_ok(
            resolved_lines(opt_str_view(local_ignore), opt_str_view(external_ignore)),
        ),
{
    let ghost goal = resolved_lines(opt_str_view(local_ignore), opt_str_view(external_ignore));
    let mut patterns: Vec<String> = Vec::new();
    if let Some(c) = local_ignore {
        patterns = parse_patterns(c);
    }
    if let Some(c) = external_ignore {
        let mut more = parse_patterns(c);
        let ghost before = patterns@;
        let ghost more_view = more@;
        patterns.append(&mut more);
        proof {
            assert(lines_view(patterns@) =~= lines_view(before) + lines_view(more_view));
        }
    }
    proof {
        assert(lines_view(patterns@) =~= goal);
        if let Some(c) = local_ignore {
            lemma_pattern_lines_wf(c@);
        }
        if let Some(c) = external_ignore {
            lemma_pattern_lines_wf(c@);
        }
        assert forall|k: int| 0 <= k < goal.len() implies wf_pattern(#[trigger] goal[k]) by {
            let local = match opt_str_view(local_ignore) {
                Some(s) => pattern_lines(s),
                None => Seq::<Seq<char>>::empty(),
            };
            if k < local.len() {
                assert(goal[k] == local[k]);
            }
        }
    }
    let mut b = new_builder();
    let mut i: usize = 0;
    while i < patterns.len()
        invariant
            goal == resolved_lines(opt_str_view(local_ignore), opt_str_view(external_ignore)),
            lines_view(patterns@) == goal,
            i <= patterns.len(),
            builder_lines(b) == goal.take(i as int),
            forall|k: int| 0 <= k < goal.len() ==> wf_pattern(#[trigger] goal[k]),
            forall|k: int| 0 <= k < i ==> glob_ok(#[trigger] goal[k]),
        decreases patterns.len() - i,
    {
        let line: &String = &patterns[i];
        proof {
            assert(goal[i as int] == line@);
        }
        match builder_add_line(&mut b, line.as_str()) {
            Ok(_) => {},
            Err(_) => {
                let cloned = line.clone();
                proof {
                    assert(goal.contains(cloned@));
                    assert(!glob_ok(goal[i as int]));
                }
                return Err(FlattenError::InvalidIgnorePattern { pattern: cloned });
            },
        }
        proof {
            assert(goal.take(i + 1) =~= goal.take(i as int).push(goal[i as int]));
        }
        i += 1;
    }
    proof {
        assert(goal.take(patterns@.len() as int) =~= goal);
    }
    match builder_build(&b) {
        Ok(g) => Ok(g),
        Err(_) => Err(FlattenError::RuleCompilation),
    }
}

/// A path is included when the rules do not ignore it.
pub open spec fn spec_included(lines: Seq<Seq<char>>, rel_path: Seq<char>) -> bool {
    !(rules_verdict(lines, rel_path, false) is Ignored)
}

/// Decides whether the rules let a regular file with the given relative path
/// into the output.  An empty rule set excludes nothing.
pub fn should_include(g: &ignore::gitignore::Gitignore, rel_path: &str) -> (r: bool)
    requires
        wf_rel_path(rel_path@),
    ensures
        r == spec_included(matcher_lines(*g), rel_path@),
        matcher_lines(*g).len() == 0 ==> r,
{
    match matcher_verdict(g, rel_path, false) {
        MatchKind::Ignored => false,
        _ => true,
    }
}

} // verus!
