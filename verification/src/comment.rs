use vstd::prelude::*;

verus! {

use vstd::string::StrSliceExecFns;
use vstd::string::StringExecFns;

/// The comment syntax used for the first line of a flattened file.
#[derive(Clone, Copy, Debug, PartialEq, Eq, Structural)]
pub enum CommentStyle {
    /// `# path: <relative>`
    Hash,
    /// `// path: <relative>`
    DoubleSlash,
    /// `<!-- path: <relative> -->`
    HtmlComment,
    /// `<?php // path: <relative> ?>`
    PhpTag,
    /// `-- path: <relative>`
    DoubleDash,
}

/// One pass over the characters of a relative path, yielding the index where
/// the basename starts (right after the last `/`, or 0) and the index of the
/// dot that begins the extension, or -1 when there is none.  A dot that is
/// the first character of the basename does not begin an extension, so a
/// dotfile such as `.gitignore` has no extension.
pub open spec fn path_scan(p: Seq<char>) -> (int, int)
    decreases p.len(),
{
    if p.len() == 0 {
        (0int, -1int)
    } else {
        let prev = path_scan(p.drop_last());
        let i = p.len() - 1;
        if p.last() == '/' {
            (i + 1, -1int)
        } else if p.last() == '.' && i > prev.0 {
            (prev.0, i)
        } else {
            prev
        }
    }
}

/// The final component of a relative path: everything after the last `/`.
pub open spec fn basename_of(p: Seq<char>) -> Seq<char> {
    p.skip(path_scan(p).0)
}

/// The extension of a relative path: everything after the last dot of the
/// basename, or empty when the basename holds no dot past its first
/// character.
pub open spec fn extension_of(p: Seq<char>) -> Seq<char> {
    if path_scan(p).1 >= 0 {
        p.skip(path_scan(p).1 + 1)
    } else {
        Seq::<char>::empty()
    }
}

/// The extension-to-comment-style table.  Extensions are matched exactly,
/// with no case normalization, so `PY` falls to the default `#` style.
/// `txt` maps to the `//` style; every unknown or missing extension maps to
/// the `#` style.
pub open spec fn style_of(ext: Seq<char>) -> CommentStyle {
    if ext == "js"@ || ext == "ts"@ || ext == "css"@ || ext == "scss"@ || ext == "sass"@
        || ext == "less"@ || ext == "rs"@ || ext == "m"@ || ext == "mm"@ || ext == "swift"@
        || ext == "go"@ || ext == "java"@ || ext == "c"@ || ext == "cpp"@ || ext == "cs"@
        || ext == "txt"@ {
        CommentStyle::DoubleSlash
    } else if ext == "html"@ || ext == "xml"@ {
        CommentStyle::HtmlComment
    } else if ext == "php"@ {
        CommentStyle::PhpTag
    } else if ext == "lua"@ || ext == "sql"@ || ext == "hs"@ || ext == "lhs"@ {
        CommentStyle::DoubleDash
    } else {
        CommentStyle::Hash
    }
}

/// What a comment of the given style puts before the relative path.
pub open spec fn style_open(st: CommentStyle) -> Seq<char> {
    match st {
        CommentStyle::Hash => "# path: "@,
        CommentStyle::DoubleSlash => "// path: "@,
        CommentStyle::HtmlComment => "<!-- path: "@,
        CommentStyle::PhpTag => "<?php // path: "@,
        CommentStyle::DoubleDash => "-- path: "@,
    }
}

/// What a comment of the given style puts after the relative path.
pub open spec fn style_close(st: CommentStyle) -> Seq<char> {
    match st {
        CommentStyle::HtmlComment => " -->"@,
        CommentStyle::PhpTag => " ?>"@,
        _ => Seq::<char>::empty(),
    }
}

/// The comment line recording a file's original relative path, without the
/// trailing newline.
pub open spec fn comment_line(p: Seq<char>) -> Seq<char> {
    style_open(style_of(extension_of(p))) + p + style_close(style_of(extension_of(p)))
}

/// The comment style is a pure function of the file extension: two paths
/// with the same extension get the same comment markers.
pub proof fn lemma_style_pure_in_extension(p1: Seq<char>, p2: Seq<char>)
    requires
        extension_of(p1) == extension_of(p2),
    ensures
        style_of(extension_of(p1)) == style_of(extension_of(p2)),
        style_open(style_of(extension_of(p1))) == style_open(style_of(extension_of(p2))),
        style_close(style_of(extension_of(p1))) == style_close(style_of(extension_of(p2))),
{
}

/// Character-for-character string comparison.
pub fn str_eq(a: &str, b: &str) -> (r: bool)
    ensures
        r == (a@ == b@),
{
    let an = a.unicode_len();
    let bn = b.unicode_len();
    if an != bn {
        proof {
            assert(a@.len() != b@.len());
        }
        return false;
    }
    let mut i: usize = 0;
    while i < an
        invariant
            an == a@.len(),
            bn == b@.len(),
            an == bn,
            i <= an,
            forall|k: int| 0 <= k < i ==> a@[k] == b@[k],
        decreases an - i,
    {
        if a.get_char(i) != b.get_char(i) {
            return false;
        }
        i += 1;
    }
    proof {
        assert(a@ =~= b@);
    }
    true
}

/// The basename of a relative path, as a borrowed suffix of it.
pub fn basename_for(path: &str) -> (b: &str)
    ensures
        b@ == basename_of(path@),
{
    let n = path.unicode_len();
    let mut i: usize = 0;
    let mut bs: usize = 0;
    while i < n
        invariant
            n == path@.len(),
            i <= n,
            bs <= i,
            path_scan(path@.take(i as int)).0 == bs as int,
        decreases n - i,
    {
        let c = path.get_char(i);
        proof {
            assert(path@.take(i + 1).drop_last() =~= path@.take(i as int));
            assert(path@.take(i + 1).last() == path@[i as int]);
        }
        if c == '/' {
            bs = i + 1;
        }
        i += 1;
    }
    proof {
        assert(path@.take(n as int) =~= path@);
        assert(path@.subrange(bs as int, n as int) =~= path@.skip(bs as int));
    }
    path.substring_char(bs, n)
}

/// The extension of a relative path, as a borrowed suffix of it.
pub fn extension_for(path: &str) -> (e: &str)
    ensures
        e@ == extension_of(path@),
{
    let n = path.unicode_len();
    let mut i: usize = 0;
    let mut bs: usize = 0;
    let mut dot: usize = 0;
    let mut has_dot: bool = false;
    while i < n
        invariant
            n == path@.len(),
            i <= n,
            bs <= i,
            has_dot ==> dot < i,
            path_scan(path@.take(i as int)).0 == bs as int,
            path_scan(path@.take(i as int)).1 == if has_dot {
                dot as int
            } else {
                -1int
            },
        decreases n - i,
    {
        let c = path.get_char(i);
        proof {
            assert(path@.take(i + 1).drop_last() =~= path@.take(i as int));
            assert(path@.take(i + 1).last() == path@[i as int]);
        }
        if c == '/' {
            bs = i + 1;
            has_dot = false;
        } else if c == '.' && i > bs {
            dot = i;
            has_dot = true;
        }
        i += 1;
    }
    proof {
        assert(path@.take(n as int) =~= path@);
    }
    if has_dot {
        proof {
            assert(path@.subrange(dot + 1, n as int) =~= path@.skip(dot + 1));
        }
        path.substring_char(dot + 1, n)
    } else {
        let e = "";
        proof {
            reveal_strlit("");
            assert(e@ =~= Seq::<char>::empty());
        }
        e
    }
}

/// The comment style for the given extension, per the static table.
pub fn style_for_extension(ext: &str) -> (st: CommentStyle)
    ensures
        st == style_of(ext@),
{
    if str_eq(ext, "js") || str_eq(ext, "ts") || str_eq(ext, "css") || str_eq(ext, "scss")
        || str_eq(ext, "sass") || str_eq(ext, "less") || str_eq(ext, "rs") || str_eq(ext, "m")
        || str_eq(ext, "mm") || str_eq(ext, "swift") || str_eq(ext, "go") || str_eq(ext, "java")
        || str_eq(ext, "c") || str_eq(ext, "cpp") || str_eq(ext, "cs") || str_eq(ext, "txt") {
        CommentStyle::DoubleSlash
    } else if str_eq(ext, "html") || str_eq(ext, "xml") {
        CommentStyle::HtmlComment
    } else if str_eq(ext, "php") {
        CommentStyle::PhpTag
    } else if str_eq(ext, "lua") || str_eq(ext, "sql") || str_eq(ext, "hs") || str_eq(ext, "lhs") {
        CommentStyle::DoubleDash
    } else {
        CommentStyle::Hash
    }
}

/// The comment line recording the given relative path, chosen by the path's
/// extension.
pub fn get_comment_for_file(path: &str) -> (r: String)
    ensures
        r@ == comment_line(path@),
{
    let ext = extension_for(path);
    let st = style_for_extension(ext);
    let mut s: String;
    match st {
        CommentStyle::Hash => {
            s = "# path: ".to_owned();
            s.append(path);
        },
        CommentStyle::DoubleSlash => {
            s = "// path: ".to_owned();
            s.append(path);
        },
        CommentStyle::HtmlComment => {
            s = "<!-- path: ".to_owned();
            s.append(path);
            s.append(" -->");
        },
        CommentStyle::PhpTag => {
            s = "<?php // path: ".to_owned();
            s.append(path);
            s.append(" ?>");
        },
        CommentStyle::DoubleDash => {
            s = "-- path: ".to_owned();
            s.append(path);
        },
    }
    proof {
        assert(s@ =~= comment_line(path@));
    }
    s
}

} // verus!
