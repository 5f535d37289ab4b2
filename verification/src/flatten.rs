use vstd::prelude::*;
use crate::comment::{basename_for, basename_of, comment_line, get_comment_for_file};
use crate::errors::{check_source, FlattenError};
use crate::rules::{
    matcher_lines, opt_str_view, resolve_rules, resolved_lines, should_include, spec_included,
};

verus! {

use vstd::string::StrSliceExecFns;
use vstd::utf8::encode_utf8;

/// The conventional name of the ignore file looked up inside the source root.
pub const IGNORE_FILE_NAME: &'static str = ".flattenerignore";

/// One regular file discovered under the source root.
#[derive(Debug, Clone)]
pub struct FileEntry {
    /// The file's path relative to the source root.
    pub rel_path: String,
    /// The file's byte content.
    pub content: Vec<u8>,
}

impl FileEntry {
    /// A discovered file has a nonempty relative path, and a path made
    /// relative to the source root neither begins with a separator nor with
    /// a `./` prefix.
    pub open spec fn wf(self) -> bool {
        self.rel_path@.len() > 0 && crate::rules::wf_rel_path(self.rel_path@)
    }
}

/// One file to be written into the output root.
#[derive(Debug, Clone)]
pub struct OutputFile {
    /// The flattened file name: the basename of the source's relative path.
    pub name: String,
    /// The bytes to write: the comment line, a newline, the source content.
    pub content: Vec<u8>,
}

/// The bytes of a flattened file: the comment line recording the relative
/// path, a newline, then the source content verbatim.
pub open spec fn spec_flat(rel: Seq<char>, content: Seq<u8>) -> Seq<u8> {
    encode_utf8(comment_line(rel)) + seq![10u8] + content
}

/// Builds the byte content of one flattened file.
pub fn flattened_content(rel_path: &str, content: &[u8]) -> (r: Vec<u8>)
    ensures
        r@ == spec_flat(rel_path@, content@),
{
    let c = get_comment_for_file(rel_path);
    let mut v = c.as_str().as_bytes_vec();
    v.push(10u8);
    v.extend_from_slice(content);
    proof {
        assert(v@ =~= spec_flat(rel_path@, content@));
    }
    v
}

/// The flattened name and bytes one entry produces.
pub open spec fn entry_out(e: FileEntry) -> (Seq<char>, Seq<u8>) {
    (basename_of(e.rel_path@), spec_flat(e.rel_path@, e.content@))
}

/// Builds the flattened file of one entry: its name drops every directory
/// component of the relative path, its content starts with the comment line.
pub fn materialize(entry: &FileEntry) -> (out: OutputFile)
    ensures
        out.name@ == basename_of(entry.rel_path@),
        out.content@ == spec_flat(entry.rel_path@, entry.content@),
{
    let name = basename_for(entry.rel_path.as_str()).to_owned();
    let content = flattened_content(entry.rel_path.as_str(), entry.content.as_slice());
    OutputFile { name, content }
}

/// The flattened files of the included entries, in discovery order.
pub open spec fn spec_plan(entries: Seq<FileEntry>, lines: Seq<Seq<char>>) -> Seq<
    (Seq<char>, Seq<u8>),
>
    decreases entries.len(),
{
    if entries.len() == 0 {
        Seq::<(Seq<char>, Seq<u8>)>::empty()
    } else {
        let prev = spec_plan(entries.drop_last(), lines);
        if spec_included(lines, entries.last().rel_path@) {
            prev.push(entry_out(entries.last()))
        } else {
            prev
        }
    }
}

/// The names and byte contents of a list of flattened files.
pub open spec fn plan_view(p: Seq<OutputFile>) -> Seq<(Seq<char>, Seq<u8>)> {
    p.map_values(|o: OutputFile| (o.name@, o.content@))
}

/// Filters the entries by the rule matcher and materializes each kept entry,
/// in order.
pub fn plan_flatten(entries: &Vec<FileEntry>, g: &ignore::gitignore::Gitignore) -> (plan: Vec<
    OutputFile,
>)
    requires
        forall|i: int| 0 <= i < entries@.len() ==> (#[trigger] entries@[i]).wf(),
    ensures
        plan_view(plan@) == spec_plan(entries@, matcher_lines(*g)),
{
    let mut plan: Vec<OutputFile> = Vec::new();
    let mut i: usize = 0;
    while i < entries.len()
        invariant
            i <= entries@.len(),
            forall|k: int| 0 <= k < entries@.len() ==> (#[trigger] entries@[k]).wf(),
            plan_view(plan@) == spec_plan(entries@.take(i as int), matcher_lines(*g)),
        decreases entries@.len() - i,
    {
        let e = &entries[i];
        proof {
            assert(entries@.take(i + 1).drop_last() =~= entries@.take(i as int));
            assert(entries@.take(i + 1).last() == entries@[i as int]);
        }
        if should_include(g, e.rel_path.as_str()) {
            let ghost before = plan@;
            let out = materialize(e);
            plan.push(out);
            proof {
                assert(plan_view(plan@) =~= plan_view(before).push(entry_out(entries@[i as int])));
            }
        }
        i += 1;
    }
    proof {
        assert(entries@.take(entries@.len() as int) =~= entries@);
    }
    plan
}

/// The whole pipeline on plain values: validate the source, resolve the
/// ignore rules from the contents of the two optional ignore files, then
/// filter and materialize the entries.  It succeeds exactly when the source
/// is an existing directory, every resolved pattern parses as a glob and the
/// rule set compiles; the caller reports the error of a failed run before
/// anything is written.
pub fn flatten_outputs(
    source: &str,
    source_exists: bool,
    source_is_dir: bool,
    entries: &Vec<FileEntry>,
    local_ignore: Option<&str>,
    external_ignore: Option<&str>,
) -> (r: Result<Vec<OutputFile>, FlattenError>)
    requires
        forall|i: int| 0 <= i < entries@.len() ==> (#[trigger] entries@[i]).wf(),
    ensures
        r is Ok <==> (source_exists && source_is_dir && ({
            let resolved = resolved_lines(opt_str_view(local_ignore), opt_str_view(external_ignore));
            &&& forall|k: int| 0 <= k < resolved.len() ==> crate::rules::glob_ok(
                #[trigger] resolved[k],
            )
            &&& crate::rules::build_ok(resolved)
        })),
        r matches Ok(plan) ==> plan_view(plan@) == spec_plan(
            entries@,
            resolved_lines(opt_str_view(local_ignore), opt_str_view(external_ignore)),
        ),
        !source_exists ==> (r matches Err(e) && (e matches FlattenError::SourceMissing {
            source: s,
        } && s@ == source@)),
        source_exists && !source_is_dir ==> (r matches Err(e) && (
        e matches FlattenError::SourceNotDirectory { source: s } && s@ == source@)),
        r matches Err(FlattenError::InvalidIgnorePattern { pattern }) ==> (resolved_lines(
            opt_str_view(local_ignore),
            opt_str_view(external_ignore),
        ).contains(pattern@) && !crate::rules::glob_ok(pattern@)),
        r matches Err(FlattenError::RuleCompilation) ==> !crate::rules::build_ok(
            resolved_lines(opt_str_view(local_ignore), opt_str_view(external_ignore)),
        ),
{
    match check_source(source, source_exists, source_is_dir) {
        Ok(_) => {},
        Err(e) => {
            return Err(e);
        },
    }
    let g = match resolve_rules(local_ignore, external_ignore) {
        Ok(g) => g,
        Err(e) => {
            return Err(e);
        },
    };
    Ok(plan_flatten(entries, &g))
}

/// The output directory after a plan is written into it, file by file in
/// order: a name written twice keeps its last content, and files the plan
/// does not name are left untouched.
pub open spec fn apply_plan(
    dir: Map<Seq<char>, Seq<u8>>,
    plan: Seq<(Seq<char>, Seq<u8>)>,
) -> Map<Seq<char>, Seq<u8>>
    decreases plan.len(),
{
    if plan.len() == 0 {
        dir
    } else {
        apply_plan(dir, plan.drop_last()).insert(plan.last().0, plan.last().1)
    }
}

/// The output directory a plan produces on its own.
pub open spec fn plan_map(plan: Seq<(Seq<char>, Seq<u8>)>) -> Map<Seq<char>, Seq<u8>> {
    apply_plan(Map::<Seq<char>, Seq<u8>>::empty(), plan)
}

/// Writing a plan into a directory overlays the plan's own files onto it.
pub proof fn lemma_apply_plan_as_union(dir: Map<Seq<char>, Seq<u8>>, plan: Seq<(Seq<char>, Seq<u8>)>)
    ensures
        apply_plan(dir, plan) == dir.union_prefer_right(plan_map(plan)),
    decreases plan.len(),
{
    if plan.len() == 0 {
        assert(dir.union_prefer_right(Map::<Seq<char>, Seq<u8>>::empty()) =~= dir);
    } else {
        lemma_apply_plan_as_union(dir, plan.drop_last());
        assert(dir.union_prefer_right(plan_map(plan.drop_last())).insert(
            plan.last().0,
            plan.last().1,
        ) =~= dir.union_prefer_right(plan_map(plan.drop_last()).insert(plan.last().0, plan.last().1)));
    }
}

/// Writing the same plan a second time over an untouched output directory
/// changes nothing: two runs on the same inputs leave byte-identical output.
pub proof fn lemma_apply_plan_idempotent(
    dir: Map<Seq<char>, Seq<u8>>,
    plan: Seq<(Seq<char>, Seq<u8>)>,
)
    ensures
        apply_plan(apply_plan(dir, plan), plan) == apply_plan(dir, plan),
{
    lemma_apply_plan_as_union(dir, plan);
    lemma_apply_plan_as_union(apply_plan(dir, plan), plan);
    assert(dir.union_prefer_right(plan_map(plan)).union_prefer_right(plan_map(plan))
        =~= dir.union_prefer_right(plan_map(plan)));
}

/// Entry number `i` exists and is let through by the rules.
pub open spec fn entry_included(entries: Seq<FileEntry>, lines: Seq<Seq<char>>, i: int) -> bool {
    0 <= i < entries.len() && spec_included(lines, entries[i].rel_path@)
}

/// Everything the pipeline writes stems from an entry the rules include: the
/// output directory holds exactly the basenames of the included entries, and
/// under each name stand the flattened bytes of an included entry of that
/// basename.  In particular no file matched by an ignore rule reaches the
/// output.
pub proof fn lemma_output_only_from_included(entries: Seq<FileEntry>, lines: Seq<Seq<char>>)
    ensures
        forall|n: Seq<char>| #[trigger]
            plan_map(spec_plan(entries, lines)).dom().contains(n) ==> exists|i: int|
                #[trigger] entry_included(entries, lines, i) && basename_of(entries[i].rel_path@)
                    == n && plan_map(spec_plan(entries, lines))[n] == spec_flat(
                    entries[i].rel_path@,
                    entries[i].content@,
                ),
        forall|i: int| #[trigger]
            entry_included(entries, lines, i) ==> plan_map(spec_plan(entries, lines)).dom().contains(
                basename_of(entries[i].rel_path@),
            ),
    decreases entries.len(),
{
    if entries.len() == 0 {
        assert(plan_map(spec_plan(entries, lines)).dom() =~= Set::<Seq<char>>::empty());
    } else {
        let prefix = entries.drop_last();
        let e = entries.last();
        lemma_output_only_from_included(prefix, lines);
        assert(forall|k: int| 0 <= k < prefix.len() ==> prefix[k] == entries[k]);
        let pm = plan_map(spec_plan(prefix, lines));
        if spec_included(lines, e.rel_path@) {
            assert(spec_plan(entries, lines) == spec_plan(prefix, lines).push(entry_out(e)));
            assert(spec_plan(prefix, lines).push(entry_out(e)).drop_last() =~= spec_plan(
                prefix,
                lines,
            ));
            let pm2 = plan_map(spec_plan(entries, lines));
            assert(pm2 == pm.insert(basename_of(e.rel_path@), spec_flat(e.rel_path@, e.content@)));
            assert forall|n: Seq<char>| #[trigger] pm2.dom().contains(n) implies exists|i: int|
                #[trigger] entry_included(entries, lines, i) && basename_of(entries[i].rel_path@)
                    == n && pm2[n] == spec_flat(entries[i].rel_path@, entries[i].content@) by {
                if n == basename_of(e.rel_path@) {
                    assert(entry_included(entries, lines, entries.len() - 1));
                } else {
                    assert(pm.dom().contains(n));
                    let i = choose|i: int|
                        #[trigger] entry_included(prefix, lines, i) && basename_of(
                            prefix[i].rel_path@,
                        ) == n && pm[n] == spec_flat(prefix[i].rel_path@, prefix[i].content@);
                    assert(entry_included(entries, lines, i));
                }
            }
            assert forall|i: int| #[trigger] entry_included(entries, lines, i) implies pm2.dom()
                .contains(basename_of(entries[i].rel_path@)) by {
                if i < entries.len() - 1 {
                    assert(entry_included(prefix, lines, i));
                }
            }
        } else {
            assert(spec_plan(entries, lines) == spec_plan(prefix, lines));
            assert forall|i: int| #[trigger] entry_included(entries, lines, i) implies plan_map(
                spec_plan(entries, lines),
            ).dom().contains(basename_of(entries[i].rel_path@)) by {
                assert(i < entries.len() - 1);
                assert(entry_included(prefix, lines, i));
            }
            assert forall|n: Seq<char>| #[trigger]
                plan_map(spec_plan(entries, lines)).dom().contains(n) implies exists|i: int|
                #[trigger] entry_included(entries, lines, i) && basename_of(entries[i].rel_path@)
                    == n && plan_map(spec_plan(entries, lines))[n] == spec_flat(
                    entries[i].rel_path@,
                    entries[i].content@,
                ) by {
                let i = choose|i: int|
                    #[trigger] entry_included(prefix, lines, i) && basename_of(prefix[i].rel_path@)
                        == n && pm[n] == spec_flat(prefix[i].rel_path@, prefix[i].content@);
                assert(entry_included(entries, lines, i));
            }
        }
    }
}

/// The index of the included entry whose flattened name is `n` and that the
/// walker yields last, or -1 when no included entry flattens to `n`.
pub open spec fn last_writer(entries: Seq<FileEntry>, lines: Seq<Seq<char>>, n: Seq<char>) -> int
    decreases entries.len(),
{
    if entries.len() == 0 {
        -1int
    } else if spec_included(lines, entries.last().rel_path@) && basename_of(
        entries.last().rel_path@,
    ) == n {
        entries.len() - 1
    } else {
        last_writer(entries.drop_last(), lines, n)
    }
}

/// On a basename collision the later write wins: under each name the output
/// directory holds the flattened bytes of the last included entry of that
/// basename, and a name no included entry flattens to does not appear.
pub proof fn lemma_last_writer_wins(entries: Seq<FileEntry>, lines: Seq<Seq<char>>, n: Seq<char>)
    ensures
        last_writer(entries, lines, n) >= 0 ==> {
            let j = last_writer(entries, lines, n);
            &&& entry_included(entries, lines, j)
            &&& basename_of(entries[j].rel_path@) == n
            &&& plan_map(spec_plan(entries, lines)).dom().contains(n)
            &&& plan_map(spec_plan(entries, lines))[n] == spec_flat(
                entries[j].rel_path@,
                entries[j].content@,
            )
        },
        last_writer(entries, lines, n) < 0 ==> !plan_map(spec_plan(entries, lines)).dom().contains(
            n,
        ),
    decreases entries.len(),
{
    if entries.len() == 0 {
        assert(plan_map(spec_plan(entries, lines)).dom() =~= Set::<Seq<char>>::empty());
    } else {
        let prefix = entries.drop_last();
        let e = entries.last();
        assert(forall|k: int| 0 <= k < prefix.len() ==> prefix[k] == entries[k]);
        lemma_last_writer_wins(prefix, lines, n);
        if spec_included(lines, e.rel_path@) {
            assert(spec_plan(entries, lines) == spec_plan(prefix, lines).push(entry_out(e)));
            assert(spec_plan(prefix, lines).push(entry_out(e)).drop_last() =~= spec_plan(
                prefix,
                lines,
            ));
            assert(plan_map(spec_plan(entries, lines)) == plan_map(spec_plan(prefix, lines)).insert(
                basename_of(e.rel_path@),
                spec_flat(e.rel_path@, e.content@),
            ));
        } else {
            assert(spec_plan(entries, lines) == spec_plan(prefix, lines));
        }
    }
}

/// With no entry ignored and no two entries sharing a basename, the output
/// directory holds exactly one file per discovered entry.
pub proof fn lemma_output_count(entries: Seq<FileEntry>, lines: Seq<Seq<char>>)
    requires
        forall|i: int| 0 <= i < entries.len() ==> spec_included(
            lines,
            (#[trigger] entries[i]).rel_path@,
        ),
        forall|i: int, j: int| 0 <= i < j < entries.len() ==> #[trigger] basename_of(
            entries[i].rel_path@,
        ) != #[trigger] basename_of(entries[j].rel_path@),
    ensures
        plan_map(spec_plan(entries, lines)).dom().finite(),
        plan_map(spec_plan(entries, lines)).dom().len() == entries.len(),
    decreases entries.len(),
{
    if entries.len() == 0 {
        assert(plan_map(spec_plan(entries, lines)).dom() =~= Set::<Seq<char>>::empty());
    } else {
        let prefix = entries.drop_last();
        let e = entries.last();
        assert(forall|k: int| 0 <= k < prefix.len() ==> prefix[k] == entries[k]);
        lemma_output_count(prefix, lines);
        let pm = plan_map(spec_plan(prefix, lines));
        assert(spec_plan(entries, lines) == spec_plan(prefix, lines).push(entry_out(e)));
        assert(spec_plan(prefix, lines).push(entry_out(e)).drop_last() =~= spec_plan(prefix, lines));
        let bn = basename_of(e.rel_path@);
        assert(!pm.dom().contains(bn)) by {
            if pm.dom().contains(bn) {
                lemma_output_only_from_included(prefix, lines);
                let i = choose|i: int|
                    #[trigger] entry_included(prefix, lines, i) && basename_of(prefix[i].rel_path@)
                        == bn && pm[bn] == spec_flat(prefix[i].rel_path@, prefix[i].content@);
                assert(basename_of(entries[i].rel_path@) == basename_of(
                    entries[entries.len() - 1].rel_path@,
                ));
            }
        }
        assert(plan_map(spec_plan(entries, lines)).dom() =~= pm.dom().insert(bn));
    }
}

} // verus!
