//! A configuration document: its lines in file order and the version state
//! discovered from them, for either dialect.

use vstd::prelude::*;
use vstd::string::*;
use crate::buildgradle::{
    code_of, name_of, parse_version_code_line, parse_version_name_line, render_code, render_name,
    replace_version_code, replace_version_name,
};
use crate::error::{Error, GradleResult};
use crate::properties::{parse_project_version_from_line, project_of, render_project, replace_project_version_from_line};
use crate::pattern::{first_match, Pattern};
use crate::locality::{all_numeric, lemma_render_build_line};
use crate::text::is_numeric;
use crate::reload::{lemma_declarations_ignore_cr, lemma_split_joined, lemma_split_no_newline, no_newline};
use crate::pattern::{lemma_first_at, lemma_match_bounds, value_start, value_end};
use crate::text::{dec, lemma_dec_value_of_dec};
use crate::buildgradle::value_text;
use crate::version::{not_increasing_message, opt_view, release, triple_text, synced, version_text, semver_parse, GradleVersion, SemanticVersion, VersionData};

verus! {

/// The two supported file conventions.
#[derive(Clone, Copy, PartialEq, Eq, Debug)]
pub enum Dialect {
    /// `versionCode` and `versionName` lines.
    BuildScript,
    /// A `projectVersion=` line; the build number is always 1 and is not
    /// written.
    Properties,
}

/// `cur` without one trailing carriage return.
pub open spec fn strip_cr(cur: Seq<char>) -> Seq<char> {
    if cur.len() > 0 && cur.last() == '\r' {
        cur.drop_last()
    } else {
        cur
    }
}

/// The lines of `s[i..]`, where `cur` is the part of the current line read
/// so far: each line ends at a newline, which it does not keep (nor a
/// carriage return just before it); a last line without newline is kept
/// when it is not empty.
pub open spec fn lines_acc(s: Seq<char>, i: int, cur: Seq<char>) -> Seq<Seq<char>>
    decreases s.len() - i,
{
    if i < 0 || i >= s.len() {
        if cur.len() > 0 {
            seq![cur]
        } else {
            seq![]
        }
    } else if s[i] == '\n' {
        seq![strip_cr(cur)] + lines_acc(s, i + 1, Seq::empty())
    } else {
        lines_acc(s, i + 1, cur.push(s[i]))
    }
}

pub open spec fn split_lines(s: Seq<char>) -> Seq<Seq<char>> {
    lines_acc(s, 0, Seq::empty())
}

/// The build number that a line declares in the dialect.
pub open spec fn detect_code(d: Dialect, line: Seq<char>) -> Option<u32> {
    match d {
        Dialect::BuildScript => code_of(line),
        Dialect::Properties => None,
    }
}

/// The semantic version that a line declares in the dialect.
pub open spec fn detect_version(d: Dialect, line: Seq<char>) -> Option<VersionData> {
    match d {
        Dialect::BuildScript => name_of(line),
        Dialect::Properties => project_of(line),
    }
}

/// A line rewritten to declare the version state `st`.
pub open spec fn render_line(d: Dialect, line: Seq<char>, st: (u32, VersionData)) -> Seq<char> {
    match d {
        Dialect::BuildScript => render_name(render_code(line, st.0), st.1),
        Dialect::Properties => render_project(line, st.1),
    }
}

/// The pattern of the semantic-version line in the dialect.
pub open spec fn version_pattern(d: Dialect) -> Pattern {
    match d {
        Dialect::BuildScript => Pattern::Name,
        Dialect::Properties => Pattern::Project,
    }
}

/// The index of the first line of `lines[i..]` that declares a build number.
pub open spec fn code_line(d: Dialect, lines: Seq<Seq<char>>, i: int) -> Option<int>
    decreases lines.len() - i,
{
    if i < 0 || i >= lines.len() {
        None
    } else if detect_code(d, lines[i]) is Some {
        Some(i)
    } else {
        code_line(d, lines, i + 1)
    }
}

/// The index of the first line of `lines[i..]` that declares a version.
pub open spec fn version_line(d: Dialect, lines: Seq<Seq<char>>, i: int) -> Option<int>
    decreases lines.len() - i,
{
    if i < 0 || i >= lines.len() {
        None
    } else if detect_version(d, lines[i]) is Some {
        Some(i)
    } else {
        version_line(d, lines, i + 1)
    }
}

/// The first build number declared in `lines[i..]`.
pub open spec fn first_code(d: Dialect, lines: Seq<Seq<char>>, i: int) -> Option<u32> {
    match code_line(d, lines, i) {
        Some(k) => detect_code(d, lines[k]),
        None => None,
    }
}

/// The first semantic version declared in `lines[i..]`.
pub open spec fn first_version(d: Dialect, lines: Seq<Seq<char>>, i: int) -> Option<VersionData> {
    match version_line(d, lines, i) {
        Some(k) => detect_version(d, lines[k]),
        None => None,
    }
}

/// The reason reported when a field is missing.
pub open spec fn missing_message(field: Seq<char>) -> Seq<char> {
    "failed to find "@ + field
}

/// The version state that a document with these lines declares: the first
/// occurrence of each field wins. `Err` names the missing field.
pub open spec fn discovered(d: Dialect, lines: Seq<Seq<char>>) -> Result<
    (u32, VersionData),
    Seq<char>,
> {
    match d {
        Dialect::BuildScript => if first_code(d, lines, 0) is None {
            Err("versionCode"@)
        } else if first_version(d, lines, 0) is None {
            Err("versionName"@)
        } else {
            Ok((first_code(d, lines, 0)->0, first_version(d, lines, 0)->0))
        },
        Dialect::Properties => if first_version(d, lines, 0) is None {
            Err("projectVersion"@)
        } else {
            Ok((1u32, first_version(d, lines, 0)->0))
        },
    }
}

/// The lines rendered with the state `st`.
pub open spec fn rendered(d: Dialect, lines: Seq<Seq<char>>, st: (u32, VersionData)) -> Seq<
    Seq<char>,
> {
    lines.map_values(|l: Seq<char>| render_line(d, l, st))
}

/// Each line followed by a newline.
pub open spec fn joined(lines: Seq<Seq<char>>) -> Seq<char>
    decreases lines.len(),
{
    if lines.len() == 0 {
        Seq::empty()
    } else {
        joined(lines.drop_last()) + lines.last() + seq!['\n']
    }
}

pub open spec fn view_lines(v: Seq<String>) -> Seq<Seq<char>> {
    v.map_values(|l: String| l@)
}

/// What a document holds, seen as values.
pub struct DocumentView {
    pub dialect: Dialect,
    pub lines: Seq<Seq<char>>,
    pub state: (u32, VersionData),
    pub modified: bool,
}

/// The lines of a configuration file, the version state discovered from
/// them, and whether a synchronization has changed that state.
pub struct ConfigDocument {
    dialect: Dialect,
    lines: Vec<String>,
    version: GradleVersion,
    modified: bool,
}

impl View for ConfigDocument {
    type V = DocumentView;

    closed spec fn view(&self) -> DocumentView {
        DocumentView {
            dialect: self.dialect,
            lines: view_lines(self.lines@),
            state: self.version@,
            modified: self.modified,
        }
    }
}

/// Splits text into lines as a line reader does.
pub fn split_text(text: &str) -> (r: Vec<String>)
    ensures
        view_lines(r@) == split_lines(text@),
{
    let n = text.unicode_len();
    let mut r: Vec<String> = Vec::new();
    let mut start: usize = 0;
    let mut i: usize = 0;
    assert(text@.subrange(0, 0) =~= Seq::<char>::empty());
    assert(view_lines(r@) =~= Seq::<Seq<char>>::empty());
    assert(split_lines(text@) =~= view_lines(r@) + split_lines(text@));
    while i < n
        invariant
            n == text@.len(),
            start <= i <= n,
            split_lines(text@) == view_lines(r@) + lines_acc(
                text@,
                i as int,
                text@.subrange(start as int, i as int),
            ),
        decreases n - i,
    {
        let c = text.get_char(i);
        if c == '\n' {
            let mut end = i;
            if end > start && text.get_char(end - 1) == '\r' {
                end = end - 1;
            }
            let line = String::from_str(text.substring_char(start, end));
            proof {
                assert(line@ =~= strip_cr(text@.subrange(start as int, i as int)));
                assert(lines_acc(text@, i + 1, text@.subrange(i + 1, i + 1)) == lines_acc(
                    text@,
                    i + 1,
                    Seq::empty(),
                )) by {
                    assert(text@.subrange(i + 1, i + 1) =~= Seq::<char>::empty());
                };
            }
            let ghost before = r@;
            r.push(line);
            assert(view_lines(r@) =~= view_lines(before) + seq![line@]);
            start = i + 1;
        } else {
            assert(text@.subrange(start as int, i + 1) =~= text@.subrange(start as int, i as int).push(c));
        }
        i = i + 1;
    }
    if start < n {
        let line = String::from_str(text.substring_char(start, n));
        let ghost before = r@;
        r.push(line);
        assert(view_lines(r@) =~= view_lines(before) + seq![line@]);
    }
    r
}

/// A line that declares neither a build number nor a version is rendered
/// unchanged, character for character, whatever the state.
pub proof fn lemma_unmatched_line_kept(d: Dialect, line: Seq<char>, st: (u32, VersionData))
    requires
        detect_code(d, line) is None,
        detect_version(d, line) is None,
    ensures
        render_line(d, line, st) == line,
{
}

/// A build-script document whose first build-number line reads
/// `versionCode <n>` declares the build number `n`.
pub proof fn lemma_code_recovered(lines: Seq<Seq<char>>, n: u32)
    requires
        code_line(Dialect::BuildScript, lines, 0) is Some,
        value_text(lines[code_line(Dialect::BuildScript, lines, 0)->0], Pattern::Code) == dec(
            n as nat,
        ),
    ensures
        first_code(Dialect::BuildScript, lines, 0) == Some(n),
{
    lemma_code_line(Dialect::BuildScript, lines, 0);
    lemma_dec_value_of_dec(n as nat);
}

/// The first build-number line is a line of the document that declares one.
pub proof fn lemma_code_line(d: Dialect, lines: Seq<Seq<char>>, i: int)
    requires
        code_line(d, lines, i) is Some,
    ensures
        i <= code_line(d, lines, i)->0 < lines.len(),
        detect_code(d, lines[code_line(d, lines, i)->0]) is Some,
        forall|j: int|
            i <= j < code_line(d, lines, i)->0 ==> detect_code(d, #[trigger] lines[j]) is None,
    decreases lines.len() - i,
{
    if detect_code(d, lines[i]) is None {
        lemma_code_line(d, lines, i + 1);
    }
}

/// The first version line is a line that declares a version, and no earlier
/// line does.
pub proof fn lemma_version_line(d: Dialect, lines: Seq<Seq<char>>, i: int)
    requires
        version_line(d, lines, i) is Some,
    ensures
        i <= version_line(d, lines, i)->0 < lines.len(),
        detect_version(d, lines[version_line(d, lines, i)->0]) is Some,
        forall|j: int|
            i <= j < version_line(d, lines, i)->0 ==> detect_version(d, #[trigger] lines[j]) is None,
    decreases lines.len() - i,
{
    if detect_version(d, lines[i]) is None {
        lemma_version_line(d, lines, i + 1);
    }
}

/// Lines that declare the same versions up to the first version line have
/// that same first version line.
proof fn lemma_version_line_agree(
    d: Dialect,
    a: Seq<Seq<char>>,
    b: Seq<Seq<char>>,
    i: int,
    k: int,
)
    requires
        0 <= i <= k < a.len(),
        k < b.len(),
        version_line(d, a, i) == Some(k),
        forall|j: int|
            i <= j <= k ==> (detect_version(d, #[trigger] a[j]) is Some) == (detect_version(
                d,
                b[j],
            ) is Some),
    ensures
        version_line(d, b, i) == Some(k),
    decreases k - i,
{
    lemma_version_line(d, a, i);
    if i < k {
        lemma_version_line_agree(d, a, b, i + 1, k);
    }
}

/// Loading the serialized text of a properties document that has not been
/// synchronized since it was loaded discovers the same version state.
proof fn lemma_reload_properties(doc: ConfigDocument)
    requires
        doc.wf(),
        !doc@.modified,
        doc@.dialect == Dialect::Properties,
    ensures
        discovered(
            Dialect::Properties,
            split_lines(joined(rendered(Dialect::Properties, doc@.lines, doc@.state))),
        ) == Ok::<(u32, VersionData), Seq<char>>(doc@.state),
{
    let d = Dialect::Properties;
    let l = doc@.lines;
    let st = doc@.state;
    let k = version_line(d, l, 0)->0;
    lemma_version_line(d, l, 0);
    let r = rendered(d, l, st);
    assert forall|j: int| 0 <= j <= k implies #[trigger] r[j] == l[j] by {
        if j == k {
            let s = l[k];
            let i = first_match(s, Pattern::Project)->0;
            lemma_first_at(s, 0, Pattern::Project);
            lemma_match_bounds(s, i, Pattern::Project);
            let vs = value_start(s, i, Pattern::Project);
            let ve = value_end(s, i, Pattern::Project);
            assert(s.subrange(0, vs) + s.subrange(vs, ve) + s.subrange(ve, s.len() as int) =~= s);
        }
    }
    lemma_split_joined(r, k + 1);
    let rl = split_lines(joined(r));
    assert forall|j: int| 0 <= j <= k implies detect_version(d, #[trigger] l[j]) == detect_version(
        d,
        rl[j],
    ) by {
        assert(r[j] == l[j]);
        assert(rl[j] == strip_cr(r[j]));
        lemma_declarations_ignore_cr(l[j]);
    }
    lemma_version_line_agree(d, l, rl, 0, k);
}

/// Lines that declare build numbers alike up to the first build-number line
/// have that same first build-number line.
proof fn lemma_code_line_agree(d: Dialect, a: Seq<Seq<char>>, b: Seq<Seq<char>>, i: int, k: int)
    requires
        0 <= i <= k < a.len(),
        k < b.len(),
        code_line(d, a, i) == Some(k),
        forall|j: int|
            i <= j <= k ==> (detect_code(d, #[trigger] a[j]) is Some) == (detect_code(d, b[j]) is Some),
    ensures
        code_line(d, b, i) == Some(k),
    decreases k - i,
{
    lemma_code_line(d, a, i);
    if i < k {
        lemma_code_line_agree(d, a, b, i + 1, k);
    }
}

/// Loading the serialized text of a build-script document that has not
/// been synchronized since it was loaded discovers the same version state.
proof fn lemma_reload_build_script(doc: ConfigDocument)
    requires
        doc.wf(),
        !doc@.modified,
        doc@.dialect == Dialect::BuildScript,
    ensures
        discovered(
            Dialect::BuildScript,
            split_lines(joined(rendered(Dialect::BuildScript, doc@.lines, doc@.state))),
        ) == Ok::<(u32, VersionData), Seq<char>>(doc@.state),
{
    let d = Dialect::BuildScript;
    let l = doc@.lines;
    let st = doc@.state;
    let n = st.0;
    let v = st.1;
    lemma_code_line(d, l, 0);
    lemma_version_line(d, l, 0);
    let kc = code_line(d, l, 0)->0;
    let kv = version_line(d, l, 0)->0;
    // the version text is the run of digits and dots on the first version line
    let s = l[kv];
    lemma_first_at(s, 0, Pattern::Name);
    let i = first_match(s, Pattern::Name)->0;
    lemma_match_bounds(s, i, Pattern::Name);
    let t = version_text(v);
    assert(t == s.subrange(value_start(s, i, Pattern::Name), value_end(s, i, Pattern::Name)));
    assert(all_numeric(t)) by {
        assert forall|q: int| 0 <= q < t.len() implies is_numeric(#[trigger] t[q]) by {
            assert(t[q] == s[value_start(s, i, Pattern::Name) + q]);
        }
    }
    let m = if kc > kv {
        kc
    } else {
        kv
    };
    let r = rendered(d, l, st);
    assert forall|j: int| 0 <= j <= m implies no_newline(#[trigger] r[j]) && (detect_code(
        d,
        r[j],
    ) == (if detect_code(d, l[j]) is Some {
        Some(n)
    } else {
        None
    })) && (detect_version(d, r[j]) == (if detect_version(d, l[j]) is Some {
        Some(v)
    } else {
        None
    })) by {
        lemma_render_build_line(l[j], n, v);
    }
    lemma_split_joined(r, m + 1);
    let rl = split_lines(joined(r));
    assert forall|j: int| 0 <= j <= m implies (detect_code(d, #[trigger] l[j]) is Some) == (
    detect_code(d, rl[j]) is Some) && (detect_version(d, l[j]) is Some) == (detect_version(
        d,
        rl[j],
    ) is Some) && (detect_code(d, l[j]) is Some ==> detect_code(d, rl[j]) == Some(n)) && (
    detect_version(d, l[j]) is Some ==> detect_version(d, rl[j]) == Some(v)) by {
        assert(rl[j] == strip_cr(r[j]));
        lemma_declarations_ignore_cr(r[j]);
        assert(no_newline(r[j]));
    }
    lemma_code_line_agree(d, l, rl, 0, kc);
    lemma_version_line_agree(d, l, rl, 0, kv);
}

/// Loading the serialized text of a document that has not been synchronized
/// since it was loaded discovers the same version state, in either dialect.
pub proof fn lemma_reload(doc: ConfigDocument)
    requires
        doc.wf(),
        !doc@.modified,
    ensures
        discovered(
            doc@.dialect,
            split_lines(joined(rendered(doc@.dialect, doc@.lines, doc@.state))),
        ) == Ok::<(u32, VersionData), Seq<char>>(doc@.state),
{
    match doc@.dialect {
        Dialect::BuildScript => lemma_reload_build_script(doc),
        Dialect::Properties => lemma_reload_properties(doc),
    }
}

/// Rendering depends on nothing but what the document holds: rendering it
/// twice with no synchronization in between gives the same lines and the
/// same text.
pub proof fn lemma_render_twice(first: DocumentView, second: DocumentView)
    requires
        first == second,
    ensures
        rendered(first.dialect, first.lines, first.state) == rendered(
            second.dialect,
            second.lines,
            second.state,
        ),
        joined(rendered(first.dialect, first.lines, first.state)) == joined(
            rendered(second.dialect, second.lines, second.state),
        ),
{
}

/// `st` is what the lines declare, and its version reads back from its own
/// text, which is the text of the first version line.
pub open spec fn loaded_state(d: Dialect, lines: Seq<Seq<char>>, st: (u32, VersionData)) -> bool {
    &&& discovered(d, lines) == Ok::<(u32, VersionData), Seq<char>>(st)
    &&& semver_parse(version_text(st.1)) == Some(st.1)
    &&& version_text(st.1) == value_text(lines[version_line(d, lines, 0)->0], version_pattern(d))
}

fn detect_code_exec(d: Dialect, line: &str) -> (r: Option<u32>)
    ensures
        r == detect_code(d, line@),
{
    match d {
        Dialect::BuildScript => parse_version_code_line(line),
        Dialect::Properties => None,
    }
}

fn detect_version_exec(d: Dialect, line: &str) -> (r: Option<SemanticVersion>)
    ensures
        opt_view(r) == detect_version(d, line@),
        r matches Some(v) ==> semver_parse(version_text(v@)) == Some(v@),
        r matches Some(v) ==> version_text(v@) == value_text(line@, version_pattern(d)),
        forall|a: u64, b: u64, c: u64|
            first_match(line@, version_pattern(d)) is Some && #[trigger] triple_text(a, b, c)
                == value_text(line@, version_pattern(d)) ==> opt_view(r) == Some(release(a, b, c)),
{
    match d {
        Dialect::BuildScript => parse_version_name_line(line),
        Dialect::Properties => parse_project_version_from_line(line),
    }
}

fn render_line_exec(d: Dialect, line: String, v: &GradleVersion) -> (r: String)
    ensures
        r@ == render_line(d, line@, v@),
{
    match d {
        Dialect::BuildScript => replace_version_name(
            replace_version_code(line, v.code()),
            v.version(),
        ),
        Dialect::Properties => replace_project_version_from_line(line, v.version()),
    }
}

impl ConfigDocument {
    /// Unless modified, the version is one that semver reads back from its
    /// own text.
    pub closed spec fn wf(&self) -> bool {
        &&& forall|j: int|
            0 <= j < self.lines@.len() ==> no_newline(#[trigger] view_lines(self.lines@)[j])
        &&& !self.modified ==> loaded_state(self.dialect, view_lines(self.lines@), self.version@)
    }

    /// Reads a document: its lines, and the first build number and version
    /// they declare. Fails with `VersionNotFound` naming a missing field.
    pub fn load(dialect: Dialect, text: &str) -> (r: GradleResult<ConfigDocument>)
        ensures
            r is Ok <==> discovered(dialect, split_lines(text@)) is Ok,
            r matches Ok(doc) ==> doc.wf() && doc@ == (DocumentView {
                dialect,
                lines: split_lines(text@),
                state: discovered(dialect, split_lines(text@))->Ok_0,
                modified: false,
            }),
            r matches Err(e) ==> e matches Error::VersionNotFound(m) && m@ == missing_message(
                discovered(dialect, split_lines(text@))->Err_0,
            ),
            // A version line that reads `a.b.c` gives exactly that version.
            r matches Ok(doc) ==> forall|a: u64, b: u64, c: u64|
                #[trigger] triple_text(a, b, c) == value_text(
                    split_lines(text@)[version_line(dialect, split_lines(text@), 0)->0],
                    version_pattern(dialect),
                ) ==> doc@.state.1 == release(a, b, c),
    {
        let lines = split_text(text);
        let ghost ls = split_lines(text@);
        let mut code: Option<u32> = None;
        let mut name: Option<SemanticVersion> = None;
        let mut i: usize = 0;
        while i < lines.len()
            invariant
                view_lines(lines@) == ls,
                ls == split_lines(text@),
                i <= lines@.len(),
                code is None ==> code_line(dialect, ls, 0) == code_line(dialect, ls, i as int),
                code is Some ==> code == first_code(dialect, ls, 0),
                name is None ==> version_line(dialect, ls, 0) == version_line(
                    dialect,
                    ls,
                    i as int,
                ),
                name matches Some(v) ==> Some(v@) == first_version(dialect, ls, 0) && semver_parse(
                    version_text(v@),
                ) == Some(v@) && version_text(v@) == value_text(
                    ls[version_line(dialect, ls, 0)->0],
                    version_pattern(dialect),
                ),
                name matches Some(v) ==> forall|a: u64, b: u64, c: u64|
                    #[trigger] triple_text(a, b, c) == value_text(
                        ls[version_line(dialect, ls, 0)->0],
                        version_pattern(dialect),
                    ) ==> v@ == release(a, b, c),
            decreases lines@.len() - i,
        {
            assert(ls[i as int] == lines@[i as int]@);
            if code.is_none() {
                code = detect_code_exec(dialect, lines[i].as_str());
            }
            if name.is_none() {
                name = detect_version_exec(dialect, lines[i].as_str());
                proof {
                    if name is Some {
                        assert(version_line(dialect, ls, i as int) == Some(i as int));
                        if first_match(ls[i as int], version_pattern(dialect)) is None {
                            assert(detect_version(dialect, ls[i as int]) is None);
                        }
                    }
                }
            }
            i = i + 1;
        }
        let (c, v) = match dialect {
            Dialect::BuildScript => {
                if code.is_none() {
                    let mut m = String::from_str("failed to find ");
                    m.append("versionCode");
                    return Err(Error::VersionNotFound(m));
                }
                if name.is_none() {
                    let mut m = String::from_str("failed to find ");
                    m.append("versionName");
                    return Err(Error::VersionNotFound(m));
                }
                (code.unwrap(), name.unwrap())
            },
            Dialect::Properties => {
                if name.is_none() {
                    let mut m = String::from_str("failed to find ");
                    m.append("projectVersion");
                    return Err(Error::VersionNotFound(m));
                }
                (1u32, name.unwrap())
            },
        };
        proof {
            lemma_split_no_newline(text@, 0, Seq::empty());
        }
        Ok(ConfigDocument::assemble(dialect, lines, GradleVersion::new(c, v)))
    }

    /// A freshly loaded, unmodified document.
    fn assemble(dialect: Dialect, lines: Vec<String>, version: GradleVersion) -> (r: ConfigDocument)
        requires
            forall|j: int| 0 <= j < lines@.len() ==> no_newline(#[trigger] view_lines(lines@)[j]),
            loaded_state(dialect, view_lines(lines@), version@),
        ensures
            r.wf(),
            r@ == (DocumentView {
                dialect,
                lines: view_lines(lines@),
                state: version@,
                modified: false,
            }),
    {
        ConfigDocument { dialect, lines, version, modified: false }
    }

    pub fn dialect(&self) -> (r: Dialect)
        ensures
            r == self@.dialect,
    {
        self.dialect
    }

    pub fn current_version(&self) -> (r: GradleResult<&GradleVersion>)
        ensures
            r matches Ok(v) && v@ == self@.state,
    {
        Ok(&self.version)
    }

    pub fn is_modified(&self) -> (r: bool)
        ensures
            r == self@.modified,
    {
        self.modified
    }

    /// Synchronizes the version state with `new_version`, and marks the
    /// document modified when the state changed. A lower version is refused
    /// with `VersionNotIncreasing` and changes nothing.
    pub fn sync_version(&mut self, new_version: &SemanticVersion) -> (r: GradleResult<()>)
        requires
            old(self).wf(),
            old(self)@.state.0 < u32::MAX,
        ensures
            final(self).wf(),
            r is Ok <==> synced(old(self)@.state, new_version@) is Some,
            r is Ok ==> final(self)@ == (DocumentView {
                state: (synced(old(self)@.state, new_version@)->0).0,
                modified: old(self)@.modified || (synced(old(self)@.state, new_version@)->0).1,
                ..old(self)@
            }),
            r is Err ==> final(self)@ == old(self)@,
            r matches Err(e) ==> e matches Error::VersionNotIncreasing(m) && m@
                == not_increasing_message(old(self)@.state.1, new_version@),
    {
        let changed = self.version.synchronize_version(new_version)?;
        if changed {
            self.modified = true;
        }
        Ok(())
    }

    /// Every line rewritten to declare the current version state; lines
    /// that declare nothing are kept as they are.
    pub fn lines(&self) -> (r: Vec<String>)
        ensures
            view_lines(r@) == rendered(self@.dialect, self@.lines, self@.state),
    {
        let mut r: Vec<String> = Vec::new();
        let mut i: usize = 0;
        while i < self.lines.len()
            invariant
                i <= self.lines@.len(),
                view_lines(r@) =~= rendered(
                    self@.dialect,
                    self@.lines.subrange(0, i as int),
                    self@.state,
                ),
            decreases self.lines@.len() - i,
        {
            let line = render_line_exec(self.dialect, self.lines[i].clone(), &self.version);
            let ghost before = r@;
            r.push(line);
            proof {
                assert(view_lines(r@) =~= view_lines(before).push(line@));
                assert(self@.lines.subrange(0, i + 1) =~= self@.lines.subrange(0, i as int).push(
                    self@.lines[i as int],
                ));
                assert(rendered(self@.dialect, self@.lines.subrange(0, i + 1), self@.state) =~= rendered(
                    self@.dialect,
                    self@.lines.subrange(0, i as int),
                    self@.state,
                ).push(render_line(self@.dialect, self@.lines[i as int], self@.state)));
            }
            i = i + 1;
        }
        assert(self@.lines.subrange(0, i as int) =~= self@.lines);
        r
    }

    /// The text to persist: the serialized document where a synchronization
    /// changed it, nothing where no write is due.
    pub fn pending_output(&self) -> (r: Option<String>)
        ensures
            r is Some <==> self@.modified,
            r matches Some(s) ==> s@ == joined(rendered(self@.dialect, self@.lines, self@.state)),
    {
        if self.modified {
            Some(self.serialize())
        } else {
            None
        }
    }

    /// The rendered lines, each followed by a newline.
    pub fn serialize(&self) -> (r: String)
        ensures
            r@ == joined(rendered(self@.dialect, self@.lines, self@.state)),
    {
        let ls = self.lines();
        let mut r = String::new();
        let mut i: usize = 0;
        while i < ls.len()
            invariant
                i <= ls@.len(),
                r@ == joined(view_lines(ls@).subrange(0, i as int)),
            decreases ls@.len() - i,
        {
            let ghost before = r@;
            r.append(ls[i].as_str());
            r.append("\n");
            proof {
                reveal_strlit("\n");
                let x = view_lines(ls@);
                assert(x.subrange(0, i + 1).drop_last() =~= x.subrange(0, i as int));
                assert(x.subrange(0, i + 1).last() == ls@[i as int]@);
                assert(joined(x.subrange(0, i + 1)) == joined(x.subrange(0, i as int)) + ls@[i as int]@
                    + seq!['\n']);
                assert(r@ =~= before + ls@[i as int]@ + seq!['\n']);
            }
            i = i + 1;
        }
        assert(view_lines(ls@).subrange(0, i as int) =~= view_lines(ls@));
        r
    }
}

/// A document in the build-script dialect.
pub struct BuildGradleContent {
    doc: ConfigDocument,
}

impl View for BuildGradleContent {
    type V = DocumentView;

    closed spec fn view(&self) -> DocumentView {
        self.doc@
    }
}

impl BuildGradleContent {
    pub closed spec fn wf(&self) -> bool {
        self.doc.wf() && self.doc@.dialect == Dialect::BuildScript
    }

    /// Reads the document from its text; see [`ConfigDocument::load`].
    pub fn from(text: &str) -> (r: GradleResult<BuildGradleContent>)
        ensures
            r is Ok <==> discovered(Dialect::BuildScript, split_lines(text@)) is Ok,
            r matches Ok(c) ==> c.wf() && c@ == (DocumentView {
                dialect: Dialect::BuildScript,
                lines: split_lines(text@),
                state: discovered(Dialect::BuildScript, split_lines(text@))->Ok_0,
                modified: false,
            }),
            r matches Err(e) ==> e matches Error::VersionNotFound(m) && m@ == missing_message(
                discovered(Dialect::BuildScript, split_lines(text@))->Err_0,
            ),
            r matches Ok(doc) ==> forall|a: u64, b: u64, c: u64|
                #[trigger] triple_text(a, b, c) == value_text(
                    split_lines(text@)[version_line(Dialect::BuildScript, split_lines(text@), 0)->0],
                    version_pattern(Dialect::BuildScript),
                ) ==> doc@.state.1 == release(a, b, c),
    {
        let doc = ConfigDocument::load(Dialect::BuildScript, text)?;
        Ok(BuildGradleContent { doc })
    }

    pub fn current_version(&self) -> (r: GradleResult<&GradleVersion>)
        ensures
            r matches Ok(v) && v@ == self@.state,
    {
        self.doc.current_version()
    }

    pub fn is_modified(&self) -> (r: bool)
        ensures
            r == self@.modified,
    {
        self.doc.is_modified()
    }

    /// Synchronizes with `new_version`; see [`ConfigDocument::sync_version`].
    pub fn sync_version(&mut self, new_version: &SemanticVersion) -> (r: GradleResult<()>)
        requires
            old(self).wf(),
            old(self)@.state.0 < u32::MAX,
        ensures
            final(self).wf(),
            r is Ok <==> synced(old(self)@.state, new_version@) is Some,
            r is Ok ==> final(self)@ == (DocumentView {
                state: (synced(old(self)@.state, new_version@)->0).0,
                modified: old(self)@.modified || (synced(old(self)@.state, new_version@)->0).1,
                ..old(self)@
            }),
            r is Err ==> final(self)@ == old(self)@,
            r matches Err(e) ==> e matches Error::VersionNotIncreasing(m) && m@
                == not_increasing_message(old(self)@.state.1, new_version@),
    {
        self.doc.sync_version(new_version)
    }

    pub fn lines(&self) -> (r: Vec<String>)
        ensures
            view_lines(r@) == rendered(self@.dialect, self@.lines, self@.state),
    {
        self.doc.lines()
    }

    pub fn serialize(&self) -> (r: String)
        ensures
            r@ == joined(rendered(self@.dialect, self@.lines, self@.state)),
    {
        self.doc.serialize()
    }

    pub fn pending_output(&self) -> (r: Option<String>)
        ensures
            r is Some <==> self@.modified,
            r matches Some(s) ==> s@ == joined(rendered(self@.dialect, self@.lines, self@.state)),
    {
        self.doc.pending_output()
    }
}

/// A document in the properties dialect.
pub struct PropertiesContent {
    doc: ConfigDocument,
}

impl View for PropertiesContent {
    type V = DocumentView;

    closed spec fn view(&self) -> DocumentView {
        self.doc@
    }
}

impl PropertiesContent {
    pub closed spec fn wf(&self) -> bool {
        self.doc.wf() && self.doc@.dialect == Dialect::Properties
    }

    /// Reads the document from its text; see [`ConfigDocument::load`].
    pub fn from(text: &str) -> (r: GradleResult<PropertiesContent>)
        ensures
            r is Ok <==> discovered(Dialect::Properties, split_lines(text@)) is Ok,
            r matches Ok(c) ==> c.wf() && c@ == (DocumentView {
                dialect: Dialect::Properties,
                lines: split_lines(text@),
                state: discovered(Dialect::Properties, split_lines(text@))->Ok_0,
                modified: false,
            }),
            r matches Err(e) ==> e matches Error::VersionNotFound(m) && m@ == missing_message(
                discovered(Dialect::Properties, split_lines(text@))->Err_0,
            ),
            r matches Ok(doc) ==> forall|a: u64, b: u64, c: u64|
                #[trigger] triple_text(a, b, c) == value_text(
                    split_lines(text@)[version_line(Dialect::Properties, split_lines(text@), 0)->0],
                    version_pattern(Dialect::Properties),
                ) ==> doc@.state.1 == release(a, b, c),
    {
        let doc = ConfigDocument::load(Dialect::Properties, text)?;
        Ok(PropertiesContent { doc })
    }

    pub fn current_version(&self) -> (r: GradleResult<&GradleVersion>)
        ensures
            r matches Ok(v) && v@ == self@.state,
    {
        self.doc.current_version()
    }

    pub fn is_modified(&self) -> (r: bool)
        ensures
            r == self@.modified,
    {
        self.doc.is_modified()
    }

    /// Synchronizes with `new_version`; see [`ConfigDocument::sync_version`].
    pub fn sync_version(&mut self, new_version: &SemanticVersion) -> (r: GradleResult<()>)
        requires
            old(self).wf(),
            old(self)@.state.0 < u32::MAX,
        ensures
            final(self).wf(),
            r is Ok <==> synced(old(self)@.state, new_version@) is Some,
            r is Ok ==> final(self)@ == (DocumentView {
                state: (synced(old(self)@.state, new_version@)->0).0,
                modified: old(self)@.modified || (synced(old(self)@.state, new_version@)->0).1,
                ..old(self)@
            }),
            r is Err ==> final(self)@ == old(self)@,
            r matches Err(e) ==> e matches Error::VersionNotIncreasing(m) && m@
                == not_increasing_message(old(self)@.state.1, new_version@),
    {
        self.doc.sync_version(new_version)
    }

    pub fn lines(&self) -> (r: Vec<String>)
        ensures
            view_lines(r@) == rendered(self@.dialect, self@.lines, self@.state),
    {
        self.doc.lines()
    }

    pub fn serialize(&self) -> (r: String)
        ensures
            r@ == joined(rendered(self@.dialect, self@.lines, self@.state)),
    {
        self.doc.serialize()
    }

    pub fn pending_output(&self) -> (r: Option<String>)
        ensures
            r is Some <==> self@.modified,
            r matches Some(s) ==> s@ == joined(rendered(self@.dialect, self@.lines, self@.state)),
    {
        self.doc.pending_output()
    }
}

} // verus!
