//! Deciding which files of a repository are indexed, and in which language.
//! Walking the directory tree is left to the caller; this module decides on
//! each file it finds.
use super::ScannedFile;
use crate::indexing::chunker::opt_str_view;
use crate::text::{chars_eq, chars_of, contains, contains_chars, lines_view, split_on, split_on_char};
use vstd::prelude::*;

verus! {

broadcast use vstd::string::group_string_axioms;

/// Files larger than this many bytes are not indexed.
pub const MAX_INDEXED_FILE_SIZE: u64 = 1_000_000;

/// The last path component that names something: empty components and `.`
/// are skipped, as `Path::components` does.
pub open spec fn last_component(segs: Seq<Seq<char>>) -> Option<Seq<char>>
    decreases segs.len(),
{
    if segs.len() == 0 {
        None
    } else if segs.last().len() == 0 || segs.last() == seq!['.'] {
        last_component(segs.drop_last())
    } else {
        Some(segs.last())
    }
}

/// The file name of a `/`-separated path, as `Path::file_name` gives it:
/// its last component, unless that is `..` or there is none.
pub open spec fn file_name(path: Seq<char>) -> Option<Seq<char>> {
    match last_component(split_on(path, '/')) {
        Some(c) => if c == seq!['.', '.'] {
            None
        } else {
            Some(c)
        },
        None => None,
    }
}

/// Index of the last `.` in `s`.
pub open spec fn last_dot(s: Seq<char>) -> Option<int>
    decreases s.len(),
{
    if s.len() == 0 {
        None
    } else if s.last() == '.' {
        Some(s.len() - 1)
    } else {
        last_dot(s.drop_last())
    }
}

/// The extension of a file name, as `Path::extension` gives it: what follows
/// the last `.`, unless that dot is the name's first character.
pub open spec fn extension(name: Seq<char>) -> Option<Seq<char>> {
    match last_dot(name) {
        Some(i) => if i == 0 {
            None
        } else {
            Some(name.subrange(i + 1, name.len() as int))
        },
        None => None,
    }
}

/// The language that a file extension stands for.
pub open spec fn lang_for_ext(e: Seq<char>) -> Option<Seq<char>> {
    if e == "rs"@ {
        Some("rust"@)
    } else if e == "py"@ {
        Some("python"@)
    } else if e == "js"@ {
        Some("javascript"@)
    } else if e == "ts"@ {
        Some("typescript"@)
    } else if e == "tsx"@ {
        Some("typescript"@)
    } else if e == "jsx"@ {
        Some("javascript"@)
    } else if e == "go"@ {
        Some("go"@)
    } else if e == "java"@ {
        Some("java"@)
    } else if e == "c"@ || e == "h"@ {
        Some("c"@)
    } else if e == "cpp"@ || e == "hpp"@ || e == "cc"@ {
        Some("cpp"@)
    } else if e == "rb"@ {
        Some("ruby"@)
    } else if e == "sh"@ || e == "bash"@ {
        Some("shell"@)
    } else if e == "toml"@ {
        Some("toml"@)
    } else if e == "yaml"@ || e == "yml"@ {
        Some("yaml"@)
    } else if e == "json"@ {
        Some("json"@)
    } else if e == "md"@ {
        Some("markdown"@)
    } else if e == "sql"@ {
        Some("sql"@)
    } else if e == "html"@ {
        Some("html"@)
    } else if e == "css"@ {
        Some("css"@)
    } else {
        None
    }
}

/// The language of the file at `path`, by the extension of its file name.
pub open spec fn spec_detect_language(path: Seq<char>) -> Option<Seq<char>> {
    match file_name(path) {
        Some(f) => match extension(f) {
            Some(e) => lang_for_ext(e),
            None => None,
        },
        None => None,
    }
}

/// Path fragments that mark generated, vendored or binary files.
pub open spec fn skip_patterns() -> Seq<Seq<char>> {
    seq![
        "node_modules"@,
        "target/"@,
        ".git/"@,
        "__pycache__"@,
        "vendor/"@,
        "dist/"@,
        "build/"@,
        ".min."@,
        "package-lock"@,
        "Cargo.lock"@,
    ]
}

/// A file is indexed when its language is known, it is not larger than
/// `MAX_INDEXED_FILE_SIZE` bytes (when its size is known), and its path holds
/// none of the `skip_patterns`.
pub open spec fn spec_is_indexable(path: Seq<char>, language: Option<Seq<char>>, size: Option<
    u64,
>) -> bool {
    &&& language is Some
    &&& !(size matches Some(sz) && sz > MAX_INDEXED_FILE_SIZE)
    &&& forall|j: int| 0 <= j < skip_patterns().len() ==> !contains(path, #[trigger] skip_patterns()[j])
}

/// A file whose language is known and whose size is within the limit is
/// indexed exactly when its path holds none of these fragments:
/// `node_modules`, `target/`, `.git/`, `__pycache__`, `vendor/`, `dist/`,
/// `build/`, `.min.`, `package-lock` and `Cargo.lock`.
pub proof fn lemma_indexable_unless_skipped(path: Seq<char>, language: Option<Seq<char>>, size: Option<u64>)
    requires
        language is Some,
        !(size matches Some(sz) && sz > MAX_INDEXED_FILE_SIZE),
    ensures
        spec_is_indexable(path, language, size) <==> !(contains(path, "node_modules"@) || contains(
            path,
            "target/"@,
        ) || contains(path, ".git/"@) || contains(path, "__pycache__"@) || contains(path, "vendor/"@)
            || contains(path, "dist/"@) || contains(path, "build/"@) || contains(path, ".min."@)
            || contains(path, "package-lock"@) || contains(path, "Cargo.lock"@)),
{
    let p = skip_patterns();
    assert(p.len() == 10);
    assert(p[0] == "node_modules"@);
    assert(p[1] == "target/"@);
    assert(p[2] == ".git/"@);
    assert(p[3] == "__pycache__"@);
    assert(p[4] == "vendor/"@);
    assert(p[5] == "dist/"@);
    assert(p[6] == "build/"@);
    assert(p[7] == ".min."@);
    assert(p[8] == "package-lock"@);
    assert(p[9] == "Cargo.lock"@);
}

proof fn lemma_last_dot_of(stem: Seq<char>, ext: Seq<char>)
    requires
        forall|i: int| 0 <= i < ext.len() ==> ext[i] != '.',
    ensures
        last_dot(stem + seq!['.'] + ext) == Some(stem.len() as int),
    decreases ext.len(),
{
    let name = stem + seq!['.'] + ext;
    if ext.len() == 0 {
        assert(name.last() == '.');
    } else {
        lemma_last_dot_of(stem, ext.drop_last());
        assert(name.drop_last() =~= stem + seq!['.'] + ext.drop_last());
        assert(name.last() == ext.last());
    }
}

/// The language of a file follows from the extension of its name: for a
/// file named `stem.ext` (a non-empty stem, an extension without a dot),
/// `rs` is Rust, `py` Python, `js` and `jsx` JavaScript, `ts` and `tsx`
/// TypeScript, `go` Go, `java` Java, `c` and `h` C, `cpp`, `hpp` and `cc`
/// C++, `rb` Ruby, `sh` and `bash` shell, `toml` TOML, `yaml` and `yml`
/// YAML, `json` JSON, `md` Markdown, `sql` SQL, `html` HTML, `css` CSS, and
/// any other extension no language.
pub proof fn lemma_language_by_extension(path: Seq<char>, stem: Seq<char>, ext: Seq<char>)
    requires
        file_name(path) == Some(stem + seq!['.'] + ext),
        stem.len() > 0,
        forall|i: int| 0 <= i < ext.len() ==> ext[i] != '.',
    ensures
        spec_detect_language(path) == if ext == "rs"@ {
            Some("rust"@)
        } else if ext == "py"@ {
            Some("python"@)
        } else if ext == "js"@ {
            Some("javascript"@)
        } else if ext == "ts"@ {
            Some("typescript"@)
        } else if ext == "tsx"@ {
            Some("typescript"@)
        } else if ext == "jsx"@ {
            Some("javascript"@)
        } else if ext == "go"@ {
            Some("go"@)
        } else if ext == "java"@ {
            Some("java"@)
        } else if ext == "c"@ || ext == "h"@ {
            Some("c"@)
        } else if ext == "cpp"@ || ext == "hpp"@ || ext == "cc"@ {
            Some("cpp"@)
        } else if ext == "rb"@ {
            Some("ruby"@)
        } else if ext == "sh"@ || ext == "bash"@ {
            Some("shell"@)
        } else if ext == "toml"@ {
            Some("toml"@)
        } else if ext == "yaml"@ || ext == "yml"@ {
            Some("yaml"@)
        } else if ext == "json"@ {
            Some("json"@)
        } else if ext == "md"@ {
            Some("markdown"@)
        } else if ext == "sql"@ {
            Some("sql"@)
        } else if ext == "html"@ {
            Some("html"@)
        } else if ext == "css"@ {
            Some("css"@)
        } else {
            None
        },
{
    let name = stem + seq!['.'] + ext;
    lemma_last_dot_of(stem, ext);
    assert(name.subrange(stem.len() + 1int, name.len() as int) =~= ext);
    assert(extension(name) == Some(ext));
}

fn last_component_index(segs: &Vec<Vec<char>>) -> (r: Option<usize>)
    ensures
        match last_component(lines_view(segs@)) {
            None => r is None,
            Some(c) => r matches Some(k) && k < segs@.len() && segs@[k as int]@ == c,
        },
{
    let ghost sv = lines_view(segs@);
    let mut k: usize = segs.len();
    assert(sv.take(k as int) =~= sv);
    while k > 0
        invariant
            k <= segs@.len(),
            sv == lines_view(segs@),
            last_component(sv) == last_component(sv.take(k as int)),
        decreases k,
    {
        let s = &segs[k - 1];
        let ghost t = sv.take(k as int);
        assert(t.last() == s@);
        assert(t.drop_last() =~= sv.take(k - 1));
        if s.len() == 0 || (s.len() == 1 && s[0] == '.') {
            assert(s@.len() == 0 || s@ =~= seq!['.']);
            k = k - 1;
        } else {
            assert(s@ != seq!['.']) by {
                if s@.len() == 1 {
                    assert(s@[0] != seq!['.'][0]);
                }
            }
            return Some(k - 1);
        }
    }
    None
}

/// Whether `v` holds exactly the characters of `lit`.
fn chars_are(v: &Vec<char>, lit: &str) -> (r: bool)
    ensures
        r == (v@ == lit@),
{
    let l = chars_of(lit);
    chars_eq(v, &l)
}

fn some_string(lit: &str) -> (r: Option<String>)
    ensures
        opt_str_view(r) == Some(lit@),
{
    Some(String::from_str(lit))
}

fn language_for_extension(e: &Vec<char>) -> (r: Option<String>)
    ensures
        opt_str_view(r) == lang_for_ext(e@),
{
    if chars_are(e, "rs") {
        some_string("rust")
    } else if chars_are(e, "py") {
        some_string("python")
    } else if chars_are(e, "js") {
        some_string("javascript")
    } else if chars_are(e, "ts") {
        some_string("typescript")
    } else if chars_are(e, "tsx") {
        some_string("typescript")
    } else if chars_are(e, "jsx") {
        some_string("javascript")
    } else if chars_are(e, "go") {
        some_string("go")
    } else if chars_are(e, "java") {
        some_string("java")
    } else if chars_are(e, "c") || chars_are(e, "h") {
        some_string("c")
    } else if chars_are(e, "cpp") || chars_are(e, "hpp") || chars_are(e, "cc") {
        some_string("cpp")
    } else if chars_are(e, "rb") {
        some_string("ruby")
    } else if chars_are(e, "sh") || chars_are(e, "bash") {
        some_string("shell")
    } else if chars_are(e, "toml") {
        some_string("toml")
    } else if chars_are(e, "yaml") || chars_are(e, "yml") {
        some_string("yaml")
    } else if chars_are(e, "json") {
        some_string("json")
    } else if chars_are(e, "md") {
        some_string("markdown")
    } else if chars_are(e, "sql") {
        some_string("sql")
    } else if chars_are(e, "html") {
        some_string("html")
    } else if chars_are(e, "css") {
        some_string("css")
    } else {
        None
    }
}

/// Index of the last `.` in `name`.
fn last_dot_index(name: &Vec<char>) -> (r: Option<usize>)
    ensures
        match last_dot(name@) {
            None => r is None,
            Some(i) => r matches Some(k) && k == i && i < name@.len(),
        },
{
    let mut k: usize = name.len();
    assert(name@.take(k as int) =~= name@);
    while k > 0
        invariant
            k <= name@.len(),
            last_dot(name@) == last_dot(name@.take(k as int)),
        decreases k,
    {
        let ghost t = name@.take(k as int);
        assert(t.drop_last() =~= name@.take(k - 1));
        if name[k - 1] == '.' {
            return Some(k - 1);
        }
        k = k - 1;
    }
    None
}

/// The programming language of the file at `path`, from its extension.
pub fn detect_language(path: &str) -> (r: Option<String>)
    ensures
        opt_str_view(r) == spec_detect_language(path@),
{
    let cs = chars_of(path);
    let segs = split_on_char(&cs, '/');
    let k = match last_component_index(&segs) {
        None => return None,
        Some(k) => k,
    };
    let name = &segs[k];
    if name.len() == 2 && name[0] == '.' && name[1] == '.' {
        assert(name@ =~= seq!['.', '.']);
        return None;
    }
    assert(name@ != seq!['.', '.']) by {
        if name@.len() == 2 {
            if name@[0] != '.' {
                assert(name@[0] != seq!['.', '.'][0]);
            } else {
                assert(name@[1] != seq!['.', '.'][1]);
            }
        }
    }
    assert(file_name(path@) == Some(name@));
    let nl = name.len();
    let i = match last_dot_index(name) {
        None => return None,
        Some(i) => i,
    };
    assert(last_dot(name@) == Some(i as int));
    if i == 0 {
        return None;
    }
    assert(i < nl);
    let mut ext: Vec<char> = Vec::new();
    let mut j: usize = i + 1;
    while j < name.len()
        invariant
            i < j <= name@.len(),
            ext@ == name@.subrange(i + 1, j as int),
        decreases name@.len() - j,
    {
        ext.push(name[j]);
        j = j + 1;
        assert(ext@ =~= name@.subrange(i + 1, j as int));
    }
    language_for_extension(&ext)
}

/// Whether a file should be indexed; `size` is its size in bytes where it
/// could be read.
pub fn is_indexable(path: &str, language: &Option<String>, size: Option<u64>) -> (r: bool)
    ensures
        r == spec_is_indexable(path@, opt_str_view(*language), size),
{
    if language.is_none() {
        return false;
    }
    if let Some(sz) = size {
        if sz > MAX_INDEXED_FILE_SIZE {
            return false;
        }
    }
    let cs = chars_of(path);
    let mut pats: Vec<Vec<char>> = Vec::new();
    pats.push(chars_of("node_modules"));
    pats.push(chars_of("target/"));
    pats.push(chars_of(".git/"));
    pats.push(chars_of("__pycache__"));
    pats.push(chars_of("vendor/"));
    pats.push(chars_of("dist/"));
    pats.push(chars_of("build/"));
    pats.push(chars_of(".min."));
    pats.push(chars_of("package-lock"));
    pats.push(chars_of("Cargo.lock"));
    assert(lines_view(pats@) =~= skip_patterns());
    let mut j: usize = 0;
    while j < pats.len()
        invariant
            j <= pats@.len(),
            lines_view(pats@) == skip_patterns(),
            cs@ == path@,
            forall|m: int| 0 <= m < j ==> !contains(path@, #[trigger] skip_patterns()[m]),
        decreases pats@.len() - j,
    {
        assert(lines_view(pats@)[j as int] == pats@[j as int]@);
        if contains_chars(&cs, &pats[j]) {
            return false;
        }
        j = j + 1;
    }
    true
}

/// The record of a file found at `path` in the repository `repo_path`, with
/// its size in bytes and modification time in seconds; `None` when the file
/// is not to be indexed.
pub fn scan_entry(path: &str, repo_path: &str, size: u64, mtime: u64) -> (r: Option<ScannedFile>)
    ensures
        match r {
            None => !spec_is_indexable(path@, spec_detect_language(path@), Some(size)),
            Some(f) => {
                &&& spec_is_indexable(path@, spec_detect_language(path@), Some(size))
                &&& f.path@ == path@
                &&& f.repo_path@ == repo_path@
                &&& f.size == size
                &&& f.mtime == mtime
                &&& opt_str_view(f.language) == spec_detect_language(path@)
            },
        },
{
    let language = detect_language(path);
    if !is_indexable(path, &language, Some(size)) {
        return None;
    }
    Some(
        ScannedFile {
            path: String::from_str(path),
            repo_path: String::from_str(repo_path),
            size,
            mtime,
            language,
        },
    )
}

} // verus!
