//! The markdown-vault backend: vault-relative identifiers, file selection
//! rules for the vault scanner, and the checkbox-line mutation paths.
use vstd::prelude::*;
use crate::date::Date;
use crate::error::TasukiError;
use crate::model::{BackendSource, NewTask, Priority, Task, TaskFilter, TaskStatus, TaskUpdate};
use crate::mutate::MutateFault;
use crate::parser::{
    is_md_task, md_file_tasks, md_parse, MdFields, ParsedTask, parse_checkbox_line, parse_file,
};
use crate::text::{
    all_digits, chars_string, dec_chars, dec_val, find_from, join_with, lines_of, lower_of, lowercase,
    parse_decimal, push_all, push_decimal, replace_first, str_chars, subvec, contains_sub,
};

verus! {

/// Configuration of the markdown-vault backend.
pub struct ObsidianConfig {
    /// Absolute path of the vault root.
    pub vault_path: String,
    /// Folder prefixes to allow; `None` allows every folder.
    pub folders: Option<Vec<String>>,
    /// Directory names never descended into.
    pub ignore_folders: Vec<String>,
    /// Vault-relative name of the file that receives new tasks.
    pub inbox_file: String,
}

/// The markdown-vault backend.
pub struct ObsidianBackend {
    pub config: ObsidianConfig,
}

/// The index of the last `:` of `s` at or before `i`, if any.
pub open spec fn rfind_colon(s: Seq<char>, i: int) -> Option<int>
    decreases i + 1,
{
    if i < 0 || i >= s.len() {
        None
    } else if s[i] == ':' {
        Some(i)
    } else {
        rfind_colon(s, i - 1)
    }
}

/// Whether `id` carries the `obsidian:` prefix.
pub open spec fn has_obsidian_prefix(id: Seq<char>) -> bool {
    id.len() >= 9 && id[0] == 'o' && id[1] == 'b' && id[2] == 's' && id[3] == 'i' && id[4] == 'd'
        && id[5] == 'i' && id[6] == 'a' && id[7] == 'n' && id[8] == ':'
}

/// The path and line number encoded in an `obsidian:<path>:<line>`
/// identifier, split on the last `:`; the line number is unbounded.
pub open spec fn obsidian_id_parts(id: Seq<char>) -> Option<(Seq<char>, int)> {
    if has_obsidian_prefix(id) {
        let rest = id.skip(9);
        match rfind_colon(rest, rest.len() - 1) {
            Some(k) => {
                let digits = rest.skip(k + 1);
                if digits.len() > 0 && all_digits(digits) {
                    Some((rest.take(k), dec_val(digits)))
                } else {
                    None
                }
            },
            None => None,
        }
    } else {
        None
    }
}

impl ObsidianBackend {
    pub fn new(config: ObsidianConfig) -> (r: Self)
        ensures
            r.config.vault_path == config.vault_path,
            r.config.folders == config.folders,
            r.config.ignore_folders == config.ignore_folders,
            r.config.inbox_file == config.inbox_file,
    {
        ObsidianBackend { config }
    }

    /// Decodes an `obsidian:<vault-relative-path>:<line>` identifier,
    /// splitting on the last `:` since paths may contain `:`.
    pub fn parse_task_id(id: &str) -> (r: Result<(String, usize), TasukiError>)
        ensures
            r is Ok <==> (obsidian_id_parts(id@) matches Some(p) && p.1 <= usize::MAX),
            r matches Ok((rel, n)) ==> (obsidian_id_parts(id@) matches Some(p) && rel@ == p.0 && n
                == p.1),
            r matches Err(e) ==> e matches TasukiError::Parse(m) && {
                if !has_obsidian_prefix(id@) {
                    m@ == "Invalid Obsidian task ID: "@ + id@
                } else if rfind_colon(id@.skip(9), id@.skip(9).len() - 1) is None {
                    m@ == "Invalid Obsidian task ID format: "@ + id@
                } else {
                    m@ == "Invalid line number in task ID: "@ + id@
                }
            },
    {
        let cs = str_chars(id);
        let ok_prefix = cs.len() >= 9 && {
            let a0 = cs[0];
            let a1 = cs[1];
            let a2 = cs[2];
            let a3 = cs[3];
            let a4 = cs[4];
            let a5 = cs[5];
            let a6 = cs[6];
            let a7 = cs[7];
            let a8 = cs[8];
            a0 == 'o' && a1 == 'b' && a2 == 's' && a3 == 'i' && a4 == 'd' && a5 == 'i' && a6 == 'a'
                && a7 == 'n' && a8 == ':'
        };
        if !ok_prefix {
            let mut m = str_chars("Invalid Obsidian task ID: ");
            push_all(&mut m, cs.as_slice());
            return Err(TasukiError::Parse(chars_string(m.as_slice())));
        }
        let rest = subvec(cs.as_slice(), 9, cs.len());
        proof {
            assert(rest@ =~= id@.skip(9));
        }
        let mut k: usize = rest.len();
        let mut found = false;
        while k > 0 && !found
            invariant
                k <= rest@.len(),
                found ==> k >= 1 && rest@[k - 1] == ':' && rfind_colon(rest@, rest@.len() - 1)
                    == Some(k - 1),
                !found ==> rfind_colon(rest@, rest@.len() - 1) == rfind_colon(rest@, k - 1),
            decreases k + (if found {
                0int
            } else {
                1int
            }),
        {
            if rest[k - 1] == ':' {
                found = true;
            } else {
                k -= 1;
            }
        }
        if !found {
            proof {
                assert(rfind_colon(rest@, rest@.len() - 1) is None);
            }
            let mut m = str_chars("Invalid Obsidian task ID format: ");
            push_all(&mut m, cs.as_slice());
            return Err(TasukiError::Parse(chars_string(m.as_slice())));
        }
        let digits = subvec(rest.as_slice(), k, rest.len());
        proof {
            assert(digits@ =~= rest@.skip(k as int));
        }
        match parse_decimal(digits.as_slice()) {
            Some(n) => {
                let rel = subvec(rest.as_slice(), 0, k - 1);
                proof {
                    assert(rel@ =~= rest@.take(k - 1));
                }
                Ok((chars_string(rel.as_slice()), n))
            },
            None => {
                let mut m = str_chars("Invalid line number in task ID: ");
                push_all(&mut m, cs.as_slice());
                Err(TasukiError::Parse(chars_string(m.as_slice())))
            },
        }
    }
}

/// The index of the last occurrence of `c` in `s` at or before `i`.
pub open spec fn rfind_char(s: Seq<char>, i: int, c: char) -> Option<int>
    decreases i + 1,
{
    if i < 0 || i >= s.len() {
        None
    } else if s[i] == c {
        Some(i)
    } else {
        rfind_char(s, i - 1, c)
    }
}

/// How a vault-relative path resolves against the vault root, as
/// `Path::join` resolves it: an absolute path replaces the root; else the
/// two are joined with a single `/`.
pub open spec fn joined_path(vault: Seq<char>, rel: Seq<char>) -> Seq<char> {
    if rel.len() > 0 && rel[0] == '/' {
        rel
    } else if vault.len() > 0 && vault.last() == '/' {
        vault + rel
    } else {
        vault + seq!['/'] + rel
    }
}

/// The trailing `/`-free prefix of a path.
pub open spec fn strip_slashes(s: Seq<char>) -> Seq<char>
    decreases s.len(),
{
    if s.len() > 0 && s.last() == '/' {
        strip_slashes(s.drop_last())
    } else {
        s
    }
}

/// The name of a vault: its root path's last `/`-separated component
/// after trailing slashes are dropped, taken literally (a `.` or `..`
/// component counts as a name here), or `vault` when nothing remains.
pub open spec fn vault_name_of(path: Seq<char>) -> Seq<char> {
    let t = strip_slashes(path);
    if t.len() == 0 {
        "vault"@
    } else {
        match rfind_char(t, t.len() - 1, '/') {
            Some(j) => t.skip(j + 1),
            None => t,
        }
    }
}

/// One character of the simple URL encoding.
pub open spec fn url_enc_char(c: char) -> Seq<char> {
    if c == ' ' {
        seq!['%', '2', '0']
    } else if c == '/' {
        seq!['%', '2', 'F']
    } else if c == '#' {
        seq!['%', '2', '3']
    } else {
        seq![c]
    }
}

/// The simple URL encoding of the characters of `s` from `i` on: spaces,
/// slashes and hashes become percent escapes.
pub open spec fn url_enc_from(s: Seq<char>, i: int) -> Seq<char>
    decreases s.len() - i,
{
    if i < 0 || i >= s.len() {
        Seq::empty()
    } else {
        url_enc_char(s[i]) + url_enc_from(s, i + 1)
    }
}

/// Percent-encodes spaces, slashes and hashes, leaving everything else.
pub fn urlencoding_simple(s: &str) -> (r: String)
    ensures
        r@ == url_enc_from(s@, 0),
{
    let cs = str_chars(s);
    let mut out: Vec<char> = Vec::new();
    let mut i: usize = 0;
    while i < cs.len()
        invariant
            i <= cs@.len(),
            cs@ == s@,
            url_enc_from(s@, 0) == out@ + url_enc_from(s@, i as int),
        decreases cs@.len() - i,
    {
        let ghost out0 = out@;
        let c = cs[i];
        if c == ' ' {
            out.push('%');
            out.push('2');
            out.push('0');
        } else if c == '/' {
            out.push('%');
            out.push('2');
            out.push('F');
        } else if c == '#' {
            out.push('%');
            out.push('2');
            out.push('3');
        } else {
            out.push(c);
        }
        proof {
            assert(out@ =~= out0 + url_enc_char(s@[i as int]));
        }
        i += 1;
    }
    chars_string(out.as_slice())
}

impl ObsidianConfig {
    /// The name of the vault: the last component of its root path.
    pub fn vault_name(&self) -> (r: String)
        ensures
            r@ == vault_name_of(self.vault_path@),
    {
        let cs = str_chars(self.vault_path.as_str());
        proof {
            assert(cs@.take(cs@.len() as int) =~= cs@);
        }
        let mut hi: usize = cs.len();
        while hi > 0 && cs[hi - 1] == '/'
            invariant
                hi <= cs@.len(),
                strip_slashes(cs@) == strip_slashes(cs@.take(hi as int)),
            decreases hi,
        {
            proof {
                assert(cs@.take(hi as int).drop_last() =~= cs@.take(hi - 1));
            }
            hi -= 1;
        }
        proof {
            assert(cs@.take(cs@.len() as int) =~= cs@);
            assert(strip_slashes(cs@.take(hi as int)) == cs@.take(hi as int));
        }
        if hi == 0 {
            let v = str_chars("vault");
            return chars_string(v.as_slice());
        }
        let ghost t = cs@.take(hi as int);
        let mut k: usize = hi;
        let mut found = false;
        while k > 0 && !found
            invariant
                k <= hi <= cs@.len(),
                t == cs@.take(hi as int),
                found ==> k >= 1 && t[k - 1] == '/' && rfind_char(t, t.len() - 1, '/') == Some(
                    k - 1,
                ),
                !found ==> rfind_char(t, t.len() - 1, '/') == rfind_char(t, k - 1, '/'),
            decreases k + (if found {
                0int
            } else {
                1int
            }),
        {
            if cs[k - 1] == '/' {
                found = true;
            } else {
                k -= 1;
            }
        }
        if found {
            let name = subvec(cs.as_slice(), k, hi);
            proof {
                assert(name@ =~= t.skip(k as int));
            }
            chars_string(name.as_slice())
        } else {
            proof {
                assert(rfind_char(t, t.len() - 1, '/') is None);
            }
            let name = subvec(cs.as_slice(), 0, hi);
            proof {
                assert(name@ =~= t);
            }
            chars_string(name.as_slice())
        }
    }
}

impl ObsidianBackend {
    /// Resolves a vault-relative path against the vault root.
    pub fn resolve_path(&self, rel: &str) -> (r: String)
        ensures
            r@ == joined_path(self.config.vault_path@, rel@),
    {
        let rc = str_chars(rel);
        if rc.len() > 0 && rc[0] == '/' {
            return chars_string(rc.as_slice());
        }
        let mut out = str_chars(self.config.vault_path.as_str());
        if !(out.len() > 0 && out[out.len() - 1] == '/') {
            out.push('/');
        }
        push_all(&mut out, rc.as_slice());
        chars_string(out.as_slice())
    }
}

/// Whether the scanner takes a directory entry: hidden names (leading
/// `.`) are excluded below the root, and ignored directory names are
/// never entered.
pub open spec fn spec_entry_included(
    name: Seq<char>,
    is_dir: bool,
    is_root: bool,
    ignore: Seq<Seq<char>>,
) -> bool {
    if name.len() > 0 && name[0] == '.' && !is_root {
        false
    } else if is_dir {
        !ignore.contains(name)
    } else {
        true
    }
}

/// Runtime check of the scanner's entry rule.
#[verifier::loop_isolation(false)]
pub fn entry_included(name: &str, is_dir: bool, is_root: bool, ignore: &Vec<String>) -> (r: bool)
    ensures
        r == spec_entry_included(name@, is_dir, is_root, ignore.deep_view()),
{
    let nc = str_chars(name);
    if nc.len() > 0 && nc[0] == '.' && !is_root {
        return false;
    }
    if is_dir {
        let mut i: usize = 0;
        while i < ignore.len()
            invariant
                i <= ignore@.len(),
                nc@ == name@,
                forall|j: int| 0 <= j < i ==> ignore.deep_view()[j] != name@,
            decreases ignore@.len() - i,
        {
            let ic = str_chars(ignore[i].as_str());
            if crate::text::chars_eq(ic.as_slice(), nc.as_slice()) {
                proof {
                    assert(ignore.deep_view().len() == ignore@.len());
                    assert(ignore.deep_view()[i as int] == name@);
                    assert(ignore.deep_view().contains(name@)) by {
                        assert(0 <= i < ignore.deep_view().len() && ignore.deep_view()[i as int]
                            == name@);
                    }
                }
                return false;
            }
            i += 1;
        }
        proof {
            assert(!ignore.deep_view().contains(name@));
        }
        true
    } else {
        true
    }
}

/// Whether a path names a markdown file, as `Path::extension` reads it:
/// the last component has a `.` past its first character, with `md`
/// after the last one.
pub open spec fn spec_md_extension(path: Seq<char>) -> bool {
    let name = match rfind_char(path, path.len() - 1, '/') {
        Some(j) => path.skip(j + 1),
        None => path,
    };
    match rfind_char(name, name.len() - 1, '.') {
        Some(k) => k > 0 && name.skip(k + 1) == seq!['m', 'd'],
        None => false,
    }
}

/// Runtime check of the markdown-extension rule.
pub fn has_md_extension(path: &str) -> (r: bool)
    ensures
        r == spec_md_extension(path@),
{
    let cs = str_chars(path);
    let mut k: usize = cs.len();
    let mut found = false;
    while k > 0 && !found
        invariant
            k <= cs@.len(),
            cs@ == path@,
            found ==> k >= 1 && cs@[k - 1] == '/' && rfind_char(cs@, cs@.len() - 1, '/') == Some(
                k - 1,
            ),
            !found ==> rfind_char(cs@, cs@.len() - 1, '/') == rfind_char(cs@, k - 1, '/'),
        decreases k + (if found {
            0int
        } else {
            1int
        }),
    {
        if cs[k - 1] == '/' {
            found = true;
        } else {
            k -= 1;
        }
    }
    let name_lo: usize = if found {
        k
    } else {
        proof {
            assert(rfind_char(cs@, cs@.len() as int - 1, '/') is None);
        }
        0
    };
    let name = subvec(cs.as_slice(), name_lo, cs.len());
    proof {
        if found {
            assert(name@ =~= cs@.skip(name_lo as int));
        } else {
            assert(name@ =~= cs@);
        }
    }
    let mut d: usize = name.len();
    let mut dfound = false;
    while d > 0 && !dfound
        invariant
            d <= name@.len(),
            dfound ==> d >= 1 && name@[d - 1] == '.' && rfind_char(name@, name@.len() - 1, '.')
                == Some(d - 1),
            !dfound ==> rfind_char(name@, name@.len() - 1, '.') == rfind_char(name@, d - 1, '.'),
        decreases d + (if dfound {
            0int
        } else {
            1int
        }),
    {
        if name[d - 1] == '.' {
            dfound = true;
        } else {
            d -= 1;
        }
    }
    if !dfound {
        proof {
            assert(rfind_char(name@, name@.len() as int - 1, '.') is None);
        }
        return false;
    }
    if d - 1 == 0 {
        return false;
    }
    let ext = subvec(name.as_slice(), d, name.len());
    proof {
        assert(ext@ =~= name@.skip(d as int));
    }
    let r = ext.len() == 2 && ext[0] == 'm' && ext[1] == 'd';
    proof {
        if r {
            assert(ext@ =~= seq!['m', 'd']);
        }
    }
    r
}

/// Whether `rel` lies under the folder prefix `folder`, on a path
/// component boundary; an empty prefix allows everything.
pub open spec fn under_folder(rel: Seq<char>, folder: Seq<char>) -> bool {
    ||| folder.len() == 0
    ||| (folder.is_prefix_of(rel) && (rel.len() == folder.len() || rel[folder.len() as int]
        == '/'))
}

/// Whether the allow-list admits a vault-relative path; no allow-list
/// admits every path.
pub open spec fn spec_in_folders(rel: Seq<char>, folders: Option<Vec<String>>) -> bool {
    match folders {
        None => true,
        Some(fs) => exists|j: int| 0 <= j < fs@.len() && under_folder(rel, fs.deep_view()[j]),
    }
}

impl ObsidianBackend {
    /// Runtime check of the allow-list rule.
    #[verifier::loop_isolation(false)]
    pub fn in_allowed_folders(&self, rel_path: &str) -> (r: bool)
        ensures
            r == spec_in_folders(rel_path@, self.config.folders),
    {
        let rc = str_chars(rel_path);
        match &self.config.folders {
            None => true,
            Some(fs) => {
                let mut i: usize = 0;
                while i < fs.len()
                    invariant
                        i <= fs@.len(),
                        rc@ == rel_path@,
                        forall|j: int| 0 <= j < i ==> !under_folder(rel_path@, fs.deep_view()[j]),
                    decreases fs@.len() - i,
                {
                    let fc = str_chars(fs[i].as_str());
                    let ok = if fc.len() == 0 {
                        true
                    } else if fc.len() > rc.len() {
                        false
                    } else {
                        let hit = crate::text::matches_at(rc.as_slice(), 0, fc.as_slice());
                        proof {
                            assert(rc@.subrange(0, fc@.len() as int) == rc@.take(fc@.len() as int));
                            if hit {
                                assert(fc@.is_prefix_of(rc@));
                            } else {
                                assert(!fc@.is_prefix_of(rc@));
                            }
                        }
                        hit && (rc.len() == fc.len() || rc[fc.len()] == '/')
                    };
                    if ok {
                        proof {
                            assert(fc@ == fs.deep_view()[i as int]);
                            assert(under_folder(rel_path@, fs.deep_view()[i as int]));
                            assert(exists|j: int|
                                0 <= j < fs@.len() && under_folder(
                                    rel_path@,
                                    #[trigger] fs.deep_view()[j],
                                )) by {
                                assert(0 <= i < fs@.len() && under_folder(
                                    rel_path@,
                                    fs.deep_view()[i as int],
                                ));
                            }
                        }
                        return true;
                    }
                    i += 1;
                }
                false
            },
        }
    }

    /// Whether the scanner selects a file: a markdown extension and, if an
    /// allow-list is configured, a listed folder prefix.
    pub fn selects_file(&self, path: &str, rel_path: &str) -> (r: bool)
        ensures
            r == (spec_md_extension(path@) && spec_in_folders(rel_path@, self.config.folders)),
    {
        has_md_extension(path) && self.in_allowed_folders(rel_path)
    }
}

/// The identifier of the vault task on line `n` of `rel`:
/// `obsidian:<rel>:<n>`.
pub open spec fn obsidian_id_seq(rel: Seq<char>, n: int) -> Seq<char> {
    "obsidian:"@ + rel + seq![':'] + dec_chars(n)
}

/// How a vault `Task` relates to the parsed fields of its line.
pub open spec fn is_obsidian_task(
    t: Task,
    f: MdFields,
    rel: Seq<char>,
    vault: Seq<char>,
    n: int,
) -> bool {
    &&& t.id@ == obsidian_id_seq(rel, n)
    &&& t.title@ == f.title
    &&& t.status == f.status
    &&& t.priority == f.priority
    &&& t.due == f.due
    &&& t.tags.deep_view() == f.tags
    &&& t.source == BackendSource::Obsidian
    &&& (t.source_line matches Some(l) && l == n)
    &&& (t.source_path matches Some(p) && p@ == joined_path(vault, rel))
    &&& t.created_at == f.created_at
    &&& t.completed_at == f.completed_at
}

impl ObsidianBackend {
    /// The tasks of one vault file, with identifiers addressing its
    /// physical lines.
    pub fn file_tasks(&self, rel_path: &str, content: &str) -> (r: Vec<Task>)
        ensures
            ({
                let sel = md_file_tasks(content@);
                &&& r@.len() == sel.len()
                &&& forall|k: int|
                    0 <= k < sel.len() ==> is_obsidian_task(
                        #[trigger] r@[k],
                        sel[k].1,
                        rel_path@,
                        self.config.vault_path@,
                        sel[k].0,
                    )
            }),
    {
        let parsed = parse_file(content);
        let abs = self.resolve_path(rel_path);
        let rc = str_chars(rel_path);
        let mut out: Vec<Task> = Vec::new();
        let mut i: usize = 0;
        while i < parsed.len()
            invariant
                i <= parsed@.len(),
                abs@ == joined_path(self.config.vault_path@, rel_path@),
                rc@ == rel_path@,
                ({
                    let sel = md_file_tasks(content@);
                    &&& parsed@.len() == sel.len()
                    &&& forall|k: int|
                        0 <= k < sel.len() ==> (#[trigger] parsed@[k]).0 == sel[k].0 && is_md_task(
                            parsed@[k].1,
                            sel[k].1,
                        )
                    &&& out@.len() == i
                    &&& forall|k: int|
                        0 <= k < i ==> is_obsidian_task(
                            #[trigger] out@[k],
                            sel[k].1,
                            rel_path@,
                            self.config.vault_path@,
                            sel[k].0,
                        )
                }),
            decreases parsed@.len() - i,
        {
            let (line_num, p) = &parsed[i];
            let mut idc = str_chars("obsidian:");
            push_all(&mut idc, rc.as_slice());
            idc.push(':');
            push_decimal(&mut idc, *line_num);
            let id = chars_string(idc.as_slice());
            proof {
                assert(idc@ =~= "obsidian:"@ + rel_path@ + seq![':'] + dec_chars(
                    parsed@[i as int].0 as int,
                ));
            }
            let t = Task {
                id,
                title: p.title.clone(),
                status: p.status,
                priority: p.priority,
                due: p.due,
                tags: crate::text::clone_strings(&p.tags),
                source: BackendSource::Obsidian,
                source_line: Some(*line_num),
                source_path: Some(abs.clone()),
                created_at: p.created_at,
                completed_at: p.completed_at,
            };
            out.push(t);
            i += 1;
        }
        out
    }
}

/// Which tasks a vault fetch keeps: unlike the flat-file filter, a
/// `due_before` bound keeps tasks without a due date.
pub open spec fn md_keep(t: Task, flt: TaskFilter) -> bool {
    &&& match flt.status {
        Some(s) => t.status == s,
        None => true,
    }
    &&& match flt.due_before {
        Some(b) => match t.due {
            Some(d) => d.spec_le(b),
            None => true,
        },
        None => true,
    }
    &&& match flt.due_after {
        Some(a) => t.due matches Some(d) && a.spec_le(d),
        None => true,
    }
    &&& match flt.search {
        Some(s) => find_from(lower_of(t.title@), lower_of(s@), 0) is Some,
        None => true,
    }
}

/// The subsequence of tasks the filter keeps.
pub open spec fn md_filtered(ts: Seq<Task>, flt: TaskFilter) -> Seq<Task>
    decreases ts.len(),
{
    if ts.len() == 0 {
        Seq::empty()
    } else {
        md_filtered(ts.drop_last(), flt) + (if md_keep(ts.last(), flt) {
            seq![ts.last()]
        } else {
            Seq::empty()
        })
    }
}

impl ObsidianBackend {
    /// Applies the fetch filter to a list of fetched tasks.
    pub fn filter_fetched(&self, tasks: Vec<Task>, filter: &TaskFilter) -> (r: Vec<Task>)
        ensures
            r@ == md_filtered(tasks@, *filter),
    {
        let mut out: Vec<Task> = Vec::new();
        let mut rest = tasks;
        let ghost orig = rest@;
        let n0 = rest.len();
        let mut taken: usize = 0;
        proof {
            assert(orig.take(0) =~= Seq::<Task>::empty());
            assert(md_filtered(orig.take(0), *filter) =~= Seq::<Task>::empty());
            assert(rest@ =~= orig.skip(0));
        }
        while rest.len() > 0
            invariant
                taken <= orig.len(),
                orig.len() == n0,
                taken + rest@.len() == orig.len(),
                rest@ == orig.skip(taken as int),
                out@ == md_filtered(orig.take(taken as int), *filter),
            decreases rest@.len(),
        {
            let t = rest.remove(0);
            proof {
                assert(t == orig[taken as int]);
                assert(rest@ =~= orig.skip(taken + 1));
            }
            let keep = {
                let status_ok = match &filter.status {
                    Some(s) => matches!((t.status, s), (TaskStatus::Pending, TaskStatus::Pending) | (
                    TaskStatus::Done,
                    TaskStatus::Done,
                    )),
                    None => true,
                };
                let before_ok = match &filter.due_before {
                    Some(b) => match &t.due {
                        Some(d) => d.le(b),
                        None => true,
                    },
                    None => true,
                };
                let after_ok = match &filter.due_after {
                    Some(a) => match &t.due {
                        Some(d) => a.le(d),
                        None => false,
                    },
                    None => true,
                };
                let search_ok = match &filter.search {
                    Some(s) => {
                        let tl = lowercase(t.title.as_str());
                        let sl = lowercase(s.as_str());
                        let tc = str_chars(tl.as_str());
                        let sc = str_chars(sl.as_str());
                        contains_sub(tc.as_slice(), sc.as_slice())
                    },
                    None => true,
                };
                status_ok && before_ok && after_ok && search_ok
            };
            proof {
                assert(keep == md_keep(orig[taken as int], *filter));
                assert(orig.take(taken + 1).drop_last() =~= orig.take(taken as int));
                assert(orig.take(taken + 1).last() == orig[taken as int]);
            }
            if keep {
                out.push(t);
            }
            taken += 1;
        }
        proof {
            assert(orig.take(taken as int) =~= orig);
        }
        out
    }
}

/// The `- [ ]` checkbox text.
pub open spec fn box_pending() -> Seq<char> {
    seq!['-', ' ', '[', ' ', ']']
}

/// The `- [x]` checkbox text.
pub open spec fn box_done() -> Seq<char> {
    seq!['-', ' ', '[', 'x', ']']
}

/// The `- [X]` checkbox text.
pub open spec fn box_done_upper() -> Seq<char> {
    seq!['-', ' ', '[', 'X', ']']
}

/// Completing a line: the first `- [ ]` becomes `- [x]`; everything else
/// on the line stays untouched.
pub open spec fn completed_line(l: Seq<char>) -> Seq<char> {
    replace_first(l, box_pending(), box_done())
}

/// Un-completing a line: the first `- [x]` becomes `- [ ]`, then the
/// first `- [X]` of the result becomes `- [ ]`.
pub open spec fn uncompleted_line(l: Seq<char>) -> Seq<char> {
    replace_first(replace_first(l, box_done(), box_pending()), box_done_upper(), box_pending())
}

/// The vault backend's message for a zero line number.
pub open spec fn bad_line_no_msg(n: int) -> Seq<char> {
    "Invalid line number: "@ + dec_chars(n)
}

/// The vault backend's message for a line past the end of the file.
pub open spec fn out_of_range_msg(n: int, count: int) -> Seq<char> {
    "Line "@ + dec_chars(n) + " out of range (file has "@ + dec_chars(count) + " lines)"@
}

/// The vault backend's short out-of-range message used by updates.
pub open spec fn out_of_range_short_msg(n: int) -> Seq<char> {
    "Line "@ + dec_chars(n) + " out of range"@
}

/// The vault backend's message for a targeted line with no checkbox.
pub open spec fn not_checkbox_msg(n: int) -> Seq<char> {
    "Line "@ + dec_chars(n) + " is not a checkbox"@
}

fn backend_error(msg: Vec<char>) -> (r: TasukiError)
    ensures
        r matches TasukiError::Backend { backend, message } && backend@ == "obsidian"@ && message@
            == msg@,
{
    let b = str_chars("obsidian");
    TasukiError::Backend {
        backend: chars_string(b.as_slice()),
        message: chars_string(msg.as_slice()),
    }
}

fn invalid_line_error(n: usize) -> (r: TasukiError)
    ensures
        r matches TasukiError::Backend { backend, message } && backend@ == "obsidian"@ && message@
            == bad_line_no_msg(n as int),
{
    let mut m = str_chars("Invalid line number: ");
    push_decimal(&mut m, n);
    backend_error(m)
}

fn out_of_range_error(n: usize, count: usize) -> (r: TasukiError)
    ensures
        r matches TasukiError::Backend { backend, message } && backend@ == "obsidian"@ && message@
            == out_of_range_msg(n as int, count as int),
{
    let mut m = str_chars("Line ");
    push_decimal(&mut m, n);
    let mid = str_chars(" out of range (file has ");
    push_all(&mut m, mid.as_slice());
    push_decimal(&mut m, count);
    let tail = str_chars(" lines)");
    push_all(&mut m, tail.as_slice());
    backend_error(m)
}

impl ObsidianBackend {
    /// Marks the checkbox on line `n` done by the pure substring
    /// replacement `- [ ]` to `- [x]`.
    pub fn complete_in_content(&self, content: &str, n: usize) -> (r: Result<String, TasukiError>)
        ensures
            r is Ok <==> crate::mutate::line_in_range(content@, n as int),
            r matches Ok(s) ==> s@ == crate::mutate::line_replaced(
                content@,
                n as int,
                completed_line(lines_of(content@)[n - 1]),
            ),
            r matches Err(e) ==> e matches TasukiError::Backend { backend, message } && backend@
                == "obsidian"@ && message@ == (if n == 0 {
                bad_line_no_msg(n as int)
            } else {
                out_of_range_msg(n as int, lines_of(content@).len() as int)
            }),
    {
        let line = match crate::mutate::line_at(content, n) {
            Ok(l) => l,
            Err(f) => {
                return Err(self.mutate_fault_error(content, n, f));
            },
        };
        let pat = str_chars("- [ ]");
        let rep = str_chars("- [x]");
        proof {
            reveal_strlit("- [ ]");
            reveal_strlit("- [x]");
            assert(pat@ =~= box_pending());
            assert(rep@ =~= box_done());
        }
        let new_line = crate::text::replace_first_vec(line.as_slice(), pat.as_slice(), rep.as_slice());
        match crate::mutate::replace_line(content, n, new_line.as_slice()) {
            Ok(s) => Ok(s),
            Err(f) => {
                return Err(self.mutate_fault_error(content, n, f));
            },
        }
    }

    /// Marks the checkbox on line `n` pending again by the pure substring
    /// replacements `- [x]` and `- [X]` to `- [ ]`.
    pub fn uncomplete_in_content(&self, content: &str, n: usize) -> (r: Result<
        String,
        TasukiError,
    >)
        ensures
            r is Ok <==> crate::mutate::line_in_range(content@, n as int),
            r matches Ok(s) ==> s@ == crate::mutate::line_replaced(
                content@,
                n as int,
                uncompleted_line(lines_of(content@)[n - 1]),
            ),
            r matches Err(e) ==> e matches TasukiError::Backend { backend, message } && backend@
                == "obsidian"@ && message@ == (if n == 0 {
                bad_line_no_msg(n as int)
            } else {
                out_of_range_msg(n as int, lines_of(content@).len() as int)
            }),
    {
        let line = match crate::mutate::line_at(content, n) {
            Ok(l) => l,
            Err(f) => {
                return Err(self.mutate_fault_error(content, n, f));
            },
        };
        let pat1 = str_chars("- [x]");
        let pat2 = str_chars("- [X]");
        let rep = str_chars("- [ ]");
        proof {
            reveal_strlit("- [x]");
            reveal_strlit("- [X]");
            reveal_strlit("- [ ]");
            assert(pat1@ =~= box_done());
            assert(pat2@ =~= box_done_upper());
            assert(rep@ =~= box_pending());
        }
        let mid = crate::text::replace_first_vec(line.as_slice(), pat1.as_slice(), rep.as_slice());
        let new_line = crate::text::replace_first_vec(mid.as_slice(), pat2.as_slice(), rep.as_slice());
        match crate::mutate::replace_line(content, n, new_line.as_slice()) {
            Ok(s) => Ok(s),
            Err(f) => {
                return Err(self.mutate_fault_error(content, n, f));
            },
        }
    }

    /// Removes physical line `n` from the file.
    pub fn delete_in_content(&self, content: &str, n: usize) -> (r: Result<String, TasukiError>)
        ensures
            r is Ok <==> crate::mutate::line_in_range(content@, n as int),
            r matches Ok(s) ==> s@ == crate::mutate::line_removed(content@, n as int),
            r matches Err(e) ==> e matches TasukiError::Backend { backend, message } && backend@
                == "obsidian"@ && message@ == (if n == 0 {
                bad_line_no_msg(n as int)
            } else {
                out_of_range_msg(n as int, lines_of(content@).len() as int)
            }),
    {
        match crate::mutate::delete_line(content, n) {
            Ok(s) => Ok(s),
            Err(f) => Err(self.mutate_fault_error(content, n, f)),
        }
    }

    /// Builds the vault backend's error for a mutator fault.
    fn mutate_fault_error(&self, content: &str, n: usize, f: MutateFault) -> (r: TasukiError)
        requires
            f == MutateFault::BadIndex ==> n == 0,
            f == MutateFault::OutOfRange ==> n >= 1,
        ensures
            r matches TasukiError::Backend { backend, message } && backend@ == "obsidian"@
                && message@ == (if n == 0 {
                bad_line_no_msg(n as int)
            } else {
                out_of_range_msg(n as int, lines_of(content@).len() as int)
            }),
    {
        match f {
            MutateFault::BadIndex => invalid_line_error(n),
            MutateFault::OutOfRange => {
                let ls = crate::mutate::split_content(content);
                proof {
                    assert(ls@.len() == lines_of(content@).len());
                }
                out_of_range_error(n, ls.len())
            },
        }
    }
}

/// Completing a pending checkbox line flips exactly its checkbox: the
/// completed line's head is done and the remainder after the checkbox is
/// untouched, so every other parsed field survives.
pub proof fn lemma_complete_marks_done(l: Seq<char>)
    requires
        crate::parser::md_head(l) matches Some(h) && h.0 == TaskStatus::Pending,
    ensures
        crate::parser::md_head(completed_line(l)) matches Some(h2) && h2.0 == TaskStatus::Done
            && h2.1 == (crate::parser::md_head(l)->0).1,
{
    let t = crate::text::trim_front(l);
    crate::text::lemma_trim_front_suffix(l);
    let tf = l.len() - t.len();
    let pat = box_pending();
    assert(t == l.skip(tf as int));
    assert(t.len() >= 5);
    assert(l.subrange(tf as int, tf + 5) =~= pat) by {
        assert forall|q: int| 0 <= q < 5 implies l.subrange(tf as int, tf + 5)[q] == pat[q] by {
            assert(l.subrange(tf as int, tf + 5)[q] == t[q]);
        }
    }
    assert(crate::text::match_at(l, pat, tf as int));
    assert forall|p: int| 0 <= p < tf implies !crate::text::match_at(l, pat, p) by {
        if crate::text::match_at(l, pat, p) {
            assert(l.subrange(p, p + 5)[0] == l[p]);
            assert(l[p] == '-');
            assert(crate::text::ws_char(l[p]));
        }
    }
    crate::text::lemma_find_skip(l, pat, 0, tf as int);
    assert(crate::text::find_from(l, pat, tf as int) == Some(tf as int));
    assert(crate::text::find_from(l, pat, 0) == Some(tf as int));
    let tail = l.skip(tf + 5);
    let newl = completed_line(l);
    assert(newl == l.take(tf as int) + box_done() + tail);
    assert(newl =~= l.take(tf as int) + (box_done() + tail));
    crate::text::lemma_trim_front_concat(l.take(tf as int), box_done() + tail);
    assert((box_done() + tail)[0] == '-');
    assert(!crate::text::ws_char('-'));
    assert(crate::text::trim_front(box_done() + tail) == box_done() + tail);
    assert(crate::text::trim_front(newl) == box_done() + tail);
    let t2 = box_done() + tail;
    assert(t2.len() >= 5);
    assert(t2[0] == '-' && t2[1] == ' ' && t2[2] == '[' && t2[3] == 'x' && t2[4] == ']');
    assert(t2.skip(5) =~= tail);
    assert(t.skip(5) =~= tail);
}

/// At the record level: completing a pending checkbox line leaves status
/// Done and reproduces every other parsed field; a line that was no task
/// stays no task.
pub proof fn lemma_complete_preserves_fields(l: Seq<char>)
    requires
        crate::parser::md_head(l) matches Some(h) && h.0 == TaskStatus::Pending,
    ensures
        match (md_parse(l), md_parse(completed_line(l))) {
            (Some(f), Some(g)) => g == (MdFields { status: TaskStatus::Done, ..f }),
            (None, None) => true,
            _ => false,
        },
{
    lemma_complete_marks_done(l);
}

/// Completing a line twice is completing it once, when the remainder
/// after the pending checkbox holds no further `- [ ]` marker.
pub proof fn lemma_complete_idempotent(l: Seq<char>)
    requires
        crate::parser::md_head(l) matches Some(h) && h.0 == TaskStatus::Pending,
        crate::text::find_from(
            l.skip(l.len() - crate::text::trim_front(l).len() + 5),
            box_pending(),
            0,
        ) is None,
    ensures
        completed_line(completed_line(l)) == completed_line(l),
{
    let t = crate::text::trim_front(l);
    crate::text::lemma_trim_front_suffix(l);
    let tf = l.len() - t.len();
    let pat = box_pending();
    assert(t == l.skip(tf as int));
    assert(t.len() >= 5);
    assert(l.subrange(tf as int, tf + 5) =~= pat) by {
        assert forall|q: int| 0 <= q < 5 implies l.subrange(tf as int, tf + 5)[q] == pat[q] by {
            assert(l.subrange(tf as int, tf + 5)[q] == t[q]);
        }
    }
    assert(crate::text::match_at(l, pat, tf as int));
    assert forall|p: int| 0 <= p < tf implies !crate::text::match_at(l, pat, p) by {
        if crate::text::match_at(l, pat, p) {
            assert(l.subrange(p, p + 5)[0] == l[p]);
            assert(l[p] == '-');
            assert(crate::text::ws_char(l[p]));
        }
    }
    crate::text::lemma_find_skip(l, pat, 0, tf as int);
    assert(crate::text::find_from(l, pat, 0) == Some(tf as int));
    let tail = l.skip(tf + 5);
    let newl = completed_line(l);
    assert(newl == l.take(tf as int) + box_done() + tail);
    crate::text::lemma_find_none_no_match(tail, pat, 0);
    assert forall|p: int| 0 <= p <= newl.len() implies !crate::text::match_at(newl, pat, p) by {
        if crate::text::match_at(newl, pat, p) {
            assert(newl.subrange(p, p + 5)[0] == newl[p]);
            assert(newl[p] == '-');
            if p < tf {
                assert(newl[p] == l[p]);
                assert(crate::text::ws_char(l[p]));
            } else if p < tf + 5 {
                assert(newl[p] == box_done()[p - tf]);
                if p == tf {
                    assert(newl.subrange(p, p + 5)[3] == newl[p + 3]);
                    assert(newl[tf + 3] == box_done()[3]);
                    assert(pat[3] == ' ');
                } else {
                    assert(box_done()[p - tf] != '-');
                }
            } else {
                assert(crate::text::match_at(tail, pat, p - (tf + 5))) by {
                    assert forall|q: int|
                        0 <= q < 5 implies tail.subrange(p - (tf + 5), p - tf)[q] == pat[q] by {
                        assert(tail.subrange(p - (tf + 5), p - tf)[q] == tail[p - (tf + 5) + q]);
                        assert(tail[p - (tf + 5) + q] == newl[p + q]);
                        assert(newl.subrange(p, p + 5)[q] == newl[p + q]);
                    }
                    assert(tail.subrange(p - (tf + 5), p - tf) =~= pat);
                }
            }
        }
    }
    crate::text::lemma_find_none(newl, pat);
    assert(completed_line(newl) == newl);
}

/// Completing a line keeps its length and introduces no newline and no
/// trailing carriage return the line did not have.
proof fn lemma_completed_line_chars(l: Seq<char>)
    requires
        forall|i: int| 0 <= i < l.len() ==> #[trigger] l[i] != '\n',
        !(l.len() > 0 && l.last() == '\r'),
    ensures
        forall|i: int|
            0 <= i < completed_line(l).len() ==> #[trigger] completed_line(l)[i] != '\n',
        !(completed_line(l).len() > 0 && completed_line(l).last() == '\r'),
        completed_line(l).len() == l.len(),
{
    let pat = box_pending();
    match crate::text::find_from(l, pat, 0) {
        None => {
            assert(completed_line(l) == l);
        },
        Some(i) => {
            crate::text::lemma_find_in_bounds(l, pat, 0);
            let new = l.take(i) + box_done() + l.skip(i + 5);
            assert(completed_line(l) == new);
            assert(new.len() == l.len());
            assert forall|p: int| 0 <= p < new.len() implies #[trigger] new[p] != '\n' by {
                if p < i {
                    assert(new[p] == l[p]);
                } else if p < i + 5 {
                    assert(new[p] == box_done()[p - i]);
                } else {
                    assert(new[p] == l.skip(i + 5)[p - (i + 5)]);
                    assert(l.skip(i + 5)[p - (i + 5)] == l[p]);
                }
            }
            if new.len() > 0 {
                let p = new.len() - 1;
                if p < i {
                    assert(new[p] == l[p]);
                } else if p < i + 5 {
                    assert(new[p] == box_done()[p - i]);
                } else {
                    assert(new[p] == l.skip(i + 5)[p - (i + 5)]);
                    assert(l.skip(i + 5)[p - (i + 5)] == l[p]);
                }
            }
        },
    }
}

/// Completing the same task twice writes the same file content as
/// completing it once: the first rewrite leaves the addressed line with
/// a done checkbox and no pending marker, so the second rewrite changes
/// nothing. Stated for content whose lines do not end in a carriage
/// return — one pass of the mutator already leaves every file that way.
pub proof fn lemma_complete_content_idempotent(content: Seq<char>, n: int)
    requires
        crate::mutate::line_in_range(content, n),
        forall|k: int|
            0 <= k < lines_of(content).len() ==> !((#[trigger] lines_of(content)[k]).len() > 0
                && lines_of(content)[k].last() == '\r'),
        ({
            let l = lines_of(content)[n - 1];
            &&& (crate::parser::md_head(l) matches Some(h) && h.0 == TaskStatus::Pending)
            &&& (crate::text::find_from(
                l.skip(l.len() - crate::text::trim_front(l).len() + 5),
                box_pending(),
                0,
            ) is None)
        }),
    ensures
        ({
            let l = lines_of(content)[n - 1];
            let once = crate::mutate::line_replaced(content, n, completed_line(l));
            &&& lines_of(once) == lines_of(content).update(n - 1, completed_line(l))
            &&& crate::mutate::line_replaced(once, n, completed_line(lines_of(once)[n - 1]))
                == once
        }),
{
    let nl = seq!['\n'];
    let ls = lines_of(content);
    let l = ls[n - 1];
    let nl1 = completed_line(l);
    crate::text::lemma_lines_rec_no_newline(content, Seq::empty());
    lemma_completed_line_chars(l);
    let ls1 = ls.update(n - 1, nl1);
    assert forall|k: int, i: int|
        0 <= k < ls1.len() && 0 <= i < ls1[k].len() implies #[trigger] ls1[k][i] != '\n' by {
        if k == n - 1 {
            assert(ls1[k] == nl1);
        } else {
            assert(ls1[k] == ls[k]);
        }
    }
    assert forall|k: int|
        0 <= k < ls1.len() implies !((#[trigger] ls1[k]).len() > 0 && ls1[k].last() == '\r') by {
        if k == n - 1 {
            assert(ls1[k] == nl1);
        } else {
            assert(ls1[k] == ls[k]);
        }
    }
    assert(content.len() > 0) by {
        if content.len() == 0 {
            assert(lines_of(content) =~= Seq::<Seq<char>>::empty());
        }
    }
    let trailing = content.last() == '\n';
    assert(crate::text::trim_front(l).len() >= 5);
    crate::text::lemma_trim_front_len(l);
    assert(nl1.len() >= 5);
    if !trailing {
        crate::text::lemma_lines_rec_last_nonempty(content, Seq::empty());
        assert(ls.last().len() > 0);
        assert(ls1.last().len() > 0) by {
            if n - 1 == ls.len() - 1 {
                assert(ls1.last() == nl1);
            } else {
                assert(ls1.last() == ls.last());
            }
        }
    }
    crate::text::lemma_lines_of_join(ls1, trailing);
    let tr: Seq<char> = if trailing {
        seq!['\n']
    } else {
        Seq::<char>::empty()
    };
    let once = crate::mutate::line_replaced(content, n, nl1);
    assert(once =~= join_with(ls1, nl) + tr);
    assert(lines_of(once) == ls1);
    assert(lines_of(once)[n - 1] == nl1);
    lemma_complete_idempotent(l);
    assert(completed_line(nl1) == nl1);
    let twice = crate::mutate::line_replaced(once, n, nl1);
    assert(lines_of(once).update(n - 1, nl1) =~= ls1);
    if trailing {
        assert(once.last() == '\n');
        assert(once.len() > 0);
    } else {
        crate::text::lemma_join_last(ls1, nl);
        assert(once =~= join_with(ls1, nl));
        assert(once.last() == ls1.last().last());
        assert(once.last() != '\n');
        assert(once.len() > 0);
    }
    assert(twice =~= join_with(ls1, nl) + tr);
    assert(twice == once);
}

/// The priority glyph segment of a rebuilt checkbox line.
pub open spec fn md_prio_seg(p: Priority) -> Seq<char> {
    match p {
        Priority::Unset => Seq::empty(),
        Priority::High => seq![' ', '\u{23EB}'],
        Priority::Medium => seq![' ', '\u{1F53C}'],
        Priority::Low => seq![' ', '\u{1F53D}'],
    }
}

/// The due-date segment of a rebuilt checkbox line.
pub open spec fn md_due_seg(due: Option<Date>) -> Seq<char> {
    match due {
        Some(d) => seq![' ', '\u{1F4C5}', ' '] + crate::date::format_iso(d),
        None => Seq::empty(),
    }
}

/// The tag segment of a rebuilt checkbox line.
pub open spec fn md_tags_seg(tags: Seq<Seq<char>>) -> Seq<char>
    decreases tags.len(),
{
    if tags.len() == 0 {
        Seq::empty()
    } else {
        md_tags_seg(tags.drop_last()) + seq![' ', '#'] + tags.last()
    }
}

/// A rebuilt checkbox line in canonical field order: checkbox, title,
/// priority glyph, due date, tags. Metadata this codec does not model is
/// dropped.
pub open spec fn md_format_line(
    status: TaskStatus,
    title: Seq<char>,
    priority: Priority,
    due: Option<Date>,
    tags: Seq<Seq<char>>,
) -> Seq<char> {
    (if status is Done {
        box_done()
    } else {
        box_pending()
    }) + seq![' '] + title + md_prio_seg(priority) + md_due_seg(due) + md_tags_seg(tags)
}

/// Emits a rebuilt checkbox line.
pub fn format_md_line(
    status: TaskStatus,
    title: &String,
    priority: Priority,
    due: &Option<Date>,
    tags: &Vec<String>,
) -> (r: Vec<char>)
    requires
        due matches Some(d) ==> d.valid(),
    ensures
        r@ == md_format_line(status, title@, priority, *due, tags.deep_view()),
{
    let mut out: Vec<char>;
    if matches!(status, TaskStatus::Done) {
        out = str_chars("- [x]");
        proof {
            reveal_strlit("- [x]");
            assert(out@ =~= box_done());
        }
    } else {
        out = str_chars("- [ ]");
        proof {
            reveal_strlit("- [ ]");
            assert(out@ =~= box_pending());
        }
    }
    out.push(' ');
    let tc = str_chars(title.as_str());
    push_all(&mut out, tc.as_slice());
    match priority {
        Priority::Unset => {},
        Priority::High => {
            out.push(' ');
            out.push('\u{23EB}');
        },
        Priority::Medium => {
            out.push(' ');
            out.push('\u{1F53C}');
        },
        Priority::Low => {
            out.push(' ');
            out.push('\u{1F53D}');
        },
    }
    let ghost base1 = (if status is Done {
        box_done()
    } else {
        box_pending()
    }) + seq![' '] + title@ + md_prio_seg(priority);
    proof {
        assert(out@ =~= base1);
    }
    match due {
        Some(d) => {
            out.push(' ');
            out.push('\u{1F4C5}');
            out.push(' ');
            crate::date::push_iso_date(&mut out, d);
        },
        None => {},
    }
    proof {
        assert(out@ =~= base1 + md_due_seg(*due));
    }
    let ghost base2 = base1 + md_due_seg(*due);
    let mut i: usize = 0;
    proof {
        assert(md_tags_seg(tags.deep_view().take(0)) =~= Seq::<char>::empty());
        assert(out@ =~= base2 + md_tags_seg(tags.deep_view().take(0)));
    }
    while i < tags.len()
        invariant
            i <= tags@.len(),
            due matches Some(d) ==> d.valid(),
            out@ == base2 + md_tags_seg(tags.deep_view().take(i as int)),
        decreases tags@.len() - i,
    {
        out.push(' ');
        out.push('#');
        let bc = str_chars(tags[i].as_str());
        push_all(&mut out, bc.as_slice());
        proof {
            assert(tags.deep_view().take(i + 1).drop_last() =~= tags.deep_view().take(i as int));
            assert(tags.deep_view().take(i + 1).last() == tags.deep_view()[i as int]);
            assert(tags.deep_view()[i as int] == tags@[i as int]@);
            assert(out@ =~= base2 + md_tags_seg(tags.deep_view().take(i + 1)));
        }
        i += 1;
    }
    proof {
        assert(tags.deep_view().take(tags.deep_view().len() as int) =~= tags.deep_view());
    }
    out
}

/// All dates a checkbox-line scan produces are valid calendar dates.
pub proof fn lemma_md_scan_dates_valid(ws: Seq<Seq<char>>, i: int, acc: crate::parser::MdScan)
    requires
        acc.due matches Some(d) ==> d.valid(),
        acc.completed_at matches Some(d) ==> d.valid(),
        acc.created_at matches Some(d) ==> d.valid(),
    ensures
        ({
            let r = crate::parser::md_scan(ws, i, acc);
            &&& (r.due matches Some(d) ==> d.valid())
            &&& (r.completed_at matches Some(d) ==> d.valid())
            &&& (r.created_at matches Some(d) ==> d.valid())
        }),
    decreases ws.len() + 2 - i,
{
    if 0 <= i < ws.len() {
        let w = ws[i];
        if acc.in_recur && !crate::parser::is_metadata_tok(w) {
            lemma_md_scan_dates_valid(ws, i + 1, acc);
        } else {
            let a = crate::parser::MdScan { in_recur: false, ..acc };
            if crate::parser::is_high_tok(w) {
                lemma_md_scan_dates_valid(
                    ws,
                    i + 1,
                    crate::parser::MdScan { priority: Priority::High, ..a },
                );
            } else if crate::parser::is_medium_tok(w) {
                lemma_md_scan_dates_valid(
                    ws,
                    i + 1,
                    crate::parser::MdScan { priority: Priority::Medium, ..a },
                );
            } else if crate::parser::is_low_tok(w) {
                lemma_md_scan_dates_valid(
                    ws,
                    i + 1,
                    crate::parser::MdScan { priority: Priority::Low, ..a },
                );
            } else if crate::parser::is_due_marker(w) && i + 1 < ws.len() && crate::date::parse_iso(
                ws[i + 1],
            ) is Some {
                lemma_md_scan_dates_valid(
                    ws,
                    i + 2,
                    crate::parser::MdScan { due: crate::date::parse_iso(ws[i + 1]), ..a },
                );
            } else if crate::parser::is_done_marker(w) && i + 1 < ws.len()
                && crate::date::parse_iso(ws[i + 1]) is Some {
                lemma_md_scan_dates_valid(
                    ws,
                    i + 2,
                    crate::parser::MdScan { completed_at: crate::date::parse_iso(ws[i + 1]), ..a },
                );
            } else if crate::parser::is_created_marker(w) && i + 1 < ws.len()
                && crate::date::parse_iso(ws[i + 1]) is Some {
                lemma_md_scan_dates_valid(
                    ws,
                    i + 2,
                    crate::parser::MdScan { created_at: crate::date::parse_iso(ws[i + 1]), ..a },
                );
            } else if crate::parser::is_skip_tok(w) {
                lemma_md_scan_dates_valid(ws, i + 2, a);
            } else if crate::parser::is_recur_tok(w) {
                lemma_md_scan_dates_valid(
                    ws,
                    i + 1,
                    crate::parser::MdScan { in_recur: true, ..a },
                );
            } else if crate::localfile::prio_token(w) is Some {
                lemma_md_scan_dates_valid(
                    ws,
                    i + 1,
                    crate::parser::MdScan { priority: crate::localfile::prio_token(w)->0, ..a },
                );
            } else if w.len() >= 1 && w[0] == '#' {
                if w.len() >= 2 {
                    lemma_md_scan_dates_valid(
                        ws,
                        i + 1,
                        crate::parser::MdScan { tags: a.tags.push(w.skip(1)), ..a },
                    );
                } else {
                    lemma_md_scan_dates_valid(ws, i + 1, a);
                }
            } else if crate::localfile::due_token(w) is Some {
                lemma_md_scan_dates_valid(
                    ws,
                    i + 1,
                    crate::parser::MdScan { due: crate::localfile::due_token(w), ..a },
                );
            } else {
                lemma_md_scan_dates_valid(
                    ws,
                    i + 1,
                    crate::parser::MdScan { title_words: a.title_words.push(w), ..a },
                );
            }
        }
    }
}

pub proof fn lemma_md_parse_dates_valid(line: Seq<char>)
    ensures
        md_parse(line) matches Some(f) ==> {
            &&& (f.due matches Some(d) ==> d.valid())
            &&& (f.completed_at matches Some(d) ==> d.valid())
            &&& (f.created_at matches Some(d) ==> d.valid())
        },
{
    match crate::parser::md_head(line) {
        Some((status, rest)) => {
            lemma_md_scan_dates_valid(
                crate::text::words_of(rest),
                0,
                crate::parser::empty_md_scan(),
            );
        },
        None => {},
    }
}

/// Fields after applying a partial update to a parsed checkbox line.
pub open spec fn md_merged(f: MdFields, u: TaskUpdate) -> MdFields {
    MdFields {
        status: match u.status {
            Some(s) => s,
            None => f.status,
        },
        priority: match u.priority {
            Some(p) => p,
            None => f.priority,
        },
        title: match u.title {
            Some(t) => t@,
            None => f.title,
        },
        tags: match u.tags {
            Some(ts) => ts.deep_view(),
            None => f.tags,
        },
        due: match u.due {
            Some(d) => d,
            None => f.due,
        },
        completed_at: None,
        created_at: None,
    }
}

impl ObsidianBackend {
    /// Applies a partial update to the checkbox on line `n`, rebuilding
    /// the whole line from canonical field order; metadata this codec
    /// does not model is dropped from the line. `id` is the identifier
    /// the updated record reports.
    pub fn update_in_content(
        &self,
        content: &str,
        rel_path: &str,
        n: usize,
        id: &str,
        update: &TaskUpdate,
    ) -> (r: Result<(String, Task), TasukiError>)
        requires
            update.due matches Some(Some(d)) ==> d.valid(),
        ensures
            r is Ok <==> (crate::mutate::line_in_range(content@, n as int) && md_parse(
                lines_of(content@)[n - 1],
            ) is Some),
            r matches Ok((s, t)) ==> (md_parse(lines_of(content@)[n - 1]) matches Some(f) && {
                let m = md_merged(f, *update);
                &&& s@ == crate::mutate::line_replaced(
                    content@,
                    n as int,
                    md_format_line(m.status, m.title, m.priority, m.due, m.tags),
                )
                &&& t.id@ == id@
                &&& t.title@ == m.title
                &&& t.status == m.status
                &&& t.priority == m.priority
                &&& t.due == m.due
                &&& t.tags.deep_view() == m.tags
                &&& t.source == BackendSource::Obsidian
                &&& (t.source_line matches Some(l) && l == n)
                &&& (t.source_path matches Some(p) && p@ == joined_path(
                    self.config.vault_path@,
                    rel_path@,
                ))
                &&& t.created_at is None
                &&& t.completed_at is None
            }),
            r matches Err(e) ==> e matches TasukiError::Backend { backend, message } && backend@
                == "obsidian"@ && message@ == (if n == 0 {
                bad_line_no_msg(n as int)
            } else if n - 1 >= lines_of(content@).len() {
                out_of_range_short_msg(n as int)
            } else {
                not_checkbox_msg(n as int)
            }),
    {
        let ls = crate::mutate::split_content(content);
        if n == 0 {
            return Err(invalid_line_error(n));
        }
        if n - 1 >= ls.len() {
            let mut m = str_chars("Line ");
            push_decimal(&mut m, n);
            let tail = str_chars(" out of range");
            push_all(&mut m, tail.as_slice());
            return Err(backend_error(m));
        }
        let line_s = chars_string(ls[n - 1].as_slice());
        proof {
            assert(line_s@ == lines_of(content@)[n - 1]);
        }
        let cur = match parse_checkbox_line(line_s.as_str()) {
            Some(p) => p,
            None => {
                let mut m = str_chars("Line ");
                push_decimal(&mut m, n);
                let tail = str_chars(" is not a checkbox");
                push_all(&mut m, tail.as_slice());
                return Err(backend_error(m));
            },
        };
        proof {
            lemma_md_parse_dates_valid(line_s@);
        }
        let ParsedTask { title: ptitle, status: pstatus, priority: ppriority, due: pdue, tags: ptags, .. } =
            cur;
        let new_title: String = match &update.title {
            Some(t) => t.clone(),
            None => ptitle,
        };
        let new_status = match update.status {
            Some(s) => s,
            None => pstatus,
        };
        let new_priority = match update.priority {
            Some(p) => p,
            None => ppriority,
        };
        let new_due = match update.due {
            Some(d) => d,
            None => pdue,
        };
        let new_tags: Vec<String> = match &update.tags {
            Some(ts) => crate::text::clone_strings(ts),
            None => ptags,
        };
        let new_line = format_md_line(new_status, &new_title, new_priority, &new_due, &new_tags);
        let new_content = match crate::mutate::replace_line(content, n, new_line.as_slice()) {
            Ok(s) => s,
            Err(_) => {
                proof {
                    assert(false);
                }
                return Err(invalid_line_error(n));
            },
        };
        let idc = str_chars(id);
        let t = Task {
            id: chars_string(idc.as_slice()),
            title: new_title,
            status: new_status,
            priority: new_priority,
            due: new_due,
            tags: new_tags,
            source: BackendSource::Obsidian,
            source_line: Some(n),
            source_path: Some(self.resolve_path(rel_path)),
            created_at: None,
            completed_at: None,
        };
        Ok((new_content, t))
    }

    /// Appends a new checkbox line to the inbox file's content; the new
    /// record's line number is the line count after the append.
    pub fn append_to_inbox(&self, content: &str, task: &NewTask) -> (r: (String, Task))
        requires
            task.due matches Some(d) ==> d.valid(),
        ensures
            ({
                let line = md_format_line(
                    TaskStatus::Pending,
                    task.title@,
                    task.priority,
                    task.due,
                    task.tags.deep_view(),
                );
                let base = if content@.len() > 0 && content@.last() != '\n' {
                    content@ + seq!['\n']
                } else {
                    content@
                };
                r.0@ == base + line + seq!['\n']
            }),
            ({
                let n = lines_of(r.0@).len() as int;
                let t = r.1;
                &&& t.id@ == obsidian_id_seq(self.config.inbox_file@, n)
                &&& t.title@ == task.title@
                &&& t.status == TaskStatus::Pending
                &&& t.priority == task.priority
                &&& t.due == task.due
                &&& t.tags.deep_view() == task.tags.deep_view()
                &&& t.source == BackendSource::Obsidian
                &&& (t.source_line matches Some(l) && l == n)
                &&& (t.source_path matches Some(p) && p@ == joined_path(
                    self.config.vault_path@,
                    self.config.inbox_file@,
                ))
                &&& t.created_at is None
                &&& t.completed_at is None
            }),
    {
        let line = format_md_line(
            TaskStatus::Pending,
            &task.title,
            task.priority,
            &task.due,
            &task.tags,
        );
        let mut out = str_chars(content);
        if out.len() > 0 && out[out.len() - 1] != '\n' {
            out.push('\n');
        }
        push_all(&mut out, line.as_slice());
        out.push('\n');
        let new_content = chars_string(out.as_slice());
        let ls = crate::mutate::split_content(new_content.as_str());
        let n = ls.len();
        let mut idc = str_chars("obsidian:");
        let ic = str_chars(self.config.inbox_file.as_str());
        push_all(&mut idc, ic.as_slice());
        idc.push(':');
        push_decimal(&mut idc, n);
        let t = Task {
            id: chars_string(idc.as_slice()),
            title: task.title.clone(),
            status: TaskStatus::Pending,
            priority: task.priority,
            due: task.due,
            tags: crate::text::clone_strings(&task.tags),
            source: BackendSource::Obsidian,
            source_line: Some(n),
            source_path: Some(self.resolve_path(self.config.inbox_file.as_str())),
            created_at: None,
            completed_at: None,
        };
        proof {
            assert(idc@ =~= obsidian_id_seq(self.config.inbox_file@, n as int));
        }
        (new_content, t)
    }
}

} // verus!
