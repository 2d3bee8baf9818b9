//! The markdown-checklist codec's tokenizer: `- [ ]` / `- [x]` checkbox
//! lines with emoji metadata tokens, inline priorities, tags and due
//! tokens, scanned left-to-right with a fixed precedence.
use vstd::prelude::*;
use crate::date::{Date, parse_iso, parse_iso_date};
use crate::localfile::{due_token, prio_token};
use crate::model::{Priority, TaskStatus};
use crate::text::{
    chars_string, deep, join_with, lines_of, split_words, str_chars, subvec, trim_both, trim_front,
    trim_front_vec, trim_vec, words_of,
};

verus! {

/// What one checkbox line parses to.
#[derive(Debug, Clone)]
pub struct ParsedTask {
    pub title: String,
    pub status: TaskStatus,
    pub priority: Priority,
    pub due: Option<Date>,
    pub completed_at: Option<Date>,
    pub created_at: Option<Date>,
    pub tags: Vec<String>,
}

/// High-priority glyphs.
pub open spec fn is_high_tok(w: Seq<char>) -> bool {
    w.len() == 1 && (w[0] == '\u{23EB}' || w[0] == '\u{1F53A}')
}

/// The medium-priority glyph.
pub open spec fn is_medium_tok(w: Seq<char>) -> bool {
    w.len() == 1 && w[0] == '\u{1F53C}'
}

/// Low-priority glyphs.
pub open spec fn is_low_tok(w: Seq<char>) -> bool {
    w.len() == 1 && (w[0] == '\u{1F53D}' || w[0] == '\u{23EC}')
}

/// Due-date marker glyphs.
pub open spec fn is_due_marker(w: Seq<char>) -> bool {
    ||| (w.len() == 1 && (w[0] == '\u{1F4C5}' || w[0] == '\u{1F5D3}'))
    ||| (w.len() == 2 && w[0] == '\u{1F5D3}' && w[1] == '\u{FE0F}')
}

/// The completion-date marker glyph.
pub open spec fn is_done_marker(w: Seq<char>) -> bool {
    w.len() == 1 && w[0] == '\u{2705}'
}

/// The creation-date marker glyph.
pub open spec fn is_created_marker(w: Seq<char>) -> bool {
    w.len() == 1 && w[0] == '\u{2795}'
}

/// Markers whose following token is consumed and discarded.
pub open spec fn is_skip_tok(w: Seq<char>) -> bool {
    w.len() == 1 && (w[0] == '\u{23F3}' || w[0] == '\u{1F6EB}' || w[0] == '\u{1F194}' || w[0]
        == '\u{26D4}' || w[0] == '\u{1F3C1}')
}

/// The recurrence marker glyph.
pub open spec fn is_recur_tok(w: Seq<char>) -> bool {
    w.len() == 1 && w[0] == '\u{1F501}'
}

/// A token of any recognized metadata shape; a recurrence phrase runs
/// until one of these.
pub open spec fn is_metadata_tok(w: Seq<char>) -> bool {
    ||| is_high_tok(w)
    ||| is_medium_tok(w)
    ||| is_low_tok(w)
    ||| is_due_marker(w)
    ||| is_done_marker(w)
    ||| is_created_marker(w)
    ||| is_skip_tok(w)
    ||| is_recur_tok(w)
    ||| (w.len() >= 1 && w[0] == '#')
    ||| (w.len() >= 4 && w[0] == 'd' && w[1] == 'u' && w[2] == 'e' && w[3] == ':')
    ||| prio_token(w) is Some
}

/// Scan state of the token scanner.
pub struct MdScan {
    pub title_words: Seq<Seq<char>>,
    pub tags: Seq<Seq<char>>,
    pub priority: Priority,
    pub due: Option<Date>,
    pub completed_at: Option<Date>,
    pub created_at: Option<Date>,
    pub in_recur: bool,
}

pub open spec fn empty_md_scan() -> MdScan {
    MdScan {
        title_words: Seq::empty(),
        tags: Seq::empty(),
        priority: Priority::Unset,
        due: None,
        completed_at: None,
        created_at: None,
        in_recur: false,
    }
}

/// The token scanner: one step per token, with the fixed precedence
/// (priority glyphs, date markers, skip-with-value markers, recurrence,
/// inline priorities, tags, `due:` tokens, literal title words).
pub open spec fn md_scan(ws: Seq<Seq<char>>, i: int, acc: MdScan) -> MdScan
    decreases ws.len() + 2 - i,
{
    if i < 0 || i >= ws.len() {
        acc
    } else {
        let w = ws[i];
        if acc.in_recur && !is_metadata_tok(w) {
            md_scan(ws, i + 1, acc)
        } else {
            let a = MdScan { in_recur: false, ..acc };
            if is_high_tok(w) {
                md_scan(ws, i + 1, MdScan { priority: Priority::High, ..a })
            } else if is_medium_tok(w) {
                md_scan(ws, i + 1, MdScan { priority: Priority::Medium, ..a })
            } else if is_low_tok(w) {
                md_scan(ws, i + 1, MdScan { priority: Priority::Low, ..a })
            } else if is_due_marker(w) && i + 1 < ws.len() && parse_iso(ws[i + 1]) is Some {
                md_scan(ws, i + 2, MdScan { due: parse_iso(ws[i + 1]), ..a })
            } else if is_done_marker(w) && i + 1 < ws.len() && parse_iso(ws[i + 1]) is Some {
                md_scan(ws, i + 2, MdScan { completed_at: parse_iso(ws[i + 1]), ..a })
            } else if is_created_marker(w) && i + 1 < ws.len() && parse_iso(ws[i + 1]) is Some {
                md_scan(ws, i + 2, MdScan { created_at: parse_iso(ws[i + 1]), ..a })
            } else if is_skip_tok(w) {
                md_scan(ws, i + 2, a)
            } else if is_recur_tok(w) {
                md_scan(ws, i + 1, MdScan { in_recur: true, ..a })
            } else if prio_token(w) is Some {
                md_scan(ws, i + 1, MdScan { priority: prio_token(w)->0, ..a })
            } else if w.len() >= 1 && w[0] == '#' {
                if w.len() >= 2 {
                    md_scan(ws, i + 1, MdScan { tags: a.tags.push(w.skip(1)), ..a })
                } else {
                    md_scan(ws, i + 1, a)
                }
            } else if due_token(w) is Some {
                md_scan(ws, i + 1, MdScan { due: due_token(w), ..a })
            } else {
                md_scan(ws, i + 1, MdScan { title_words: a.title_words.push(w), ..a })
            }
        }
    }
}

/// The checkbox head: an optionally indented `- [ ]`, `- [x]` or `- [X]`,
/// yielding the status and the trimmed remainder.
pub open spec fn md_head(line: Seq<char>) -> Option<(TaskStatus, Seq<char>)> {
    let t = trim_front(line);
    if t.len() >= 5 && t[0] == '-' && t[1] == ' ' && t[2] == '[' && t[4] == ']' && (t[3] == ' '
        || t[3] == 'x' || t[3] == 'X') {
        Some(
            (
                if t[3] == ' ' {
                    TaskStatus::Pending
                } else {
                    TaskStatus::Done
                },
                trim_front(t.skip(5)),
            ),
        )
    } else {
        None
    }
}

/// The fields a checkbox line parses to.
pub struct MdFields {
    pub status: TaskStatus,
    pub priority: Priority,
    pub completed_at: Option<Date>,
    pub created_at: Option<Date>,
    pub title: Seq<char>,
    pub tags: Seq<Seq<char>>,
    pub due: Option<Date>,
}

/// The grammar of one checkbox line; a line with no checkbox head, an
/// empty remainder or an empty title is not a task.
pub open spec fn md_parse(line: Seq<char>) -> Option<MdFields> {
    match md_head(line) {
        None => None,
        Some((status, rest)) => {
            if rest.len() == 0 {
                None
            } else {
                let sc = md_scan(words_of(rest), 0, empty_md_scan());
                if sc.title_words.len() == 0 {
                    None
                } else {
                    Some(
                        MdFields {
                            status,
                            priority: sc.priority,
                            completed_at: sc.completed_at,
                            created_at: sc.created_at,
                            title: join_with(sc.title_words, seq![' ']),
                            tags: sc.tags,
                            due: sc.due,
                        },
                    )
                }
            }
        },
    }
}

/// How a `ParsedTask` relates to parsed fields.
pub open spec fn is_md_task(p: ParsedTask, f: MdFields) -> bool {
    &&& p.title@ == f.title
    &&& p.status == f.status
    &&& p.priority == f.priority
    &&& p.due == f.due
    &&& p.completed_at == f.completed_at
    &&& p.created_at == f.created_at
    &&& p.tags.deep_view() == f.tags
}

fn is_high(w: &[char]) -> (r: bool)
    ensures
        r == is_high_tok(w@),
{
    let r = w.len() == 1 && (w[0] == '\u{23EB}' || w[0] == '\u{1F53A}');
    r
}

fn is_medium(w: &[char]) -> (r: bool)
    ensures
        r == is_medium_tok(w@),
{
    let r = w.len() == 1 && w[0] == '\u{1F53C}';
    r
}

fn is_low(w: &[char]) -> (r: bool)
    ensures
        r == is_low_tok(w@),
{
    let r = w.len() == 1 && (w[0] == '\u{1F53D}' || w[0] == '\u{23EC}');
    r
}

fn is_due_m(w: &[char]) -> (r: bool)
    ensures
        r == is_due_marker(w@),
{
    let r = (w.len() == 1 && (w[0] == '\u{1F4C5}' || w[0] == '\u{1F5D3}')) || (w.len() == 2 && w[0]
        == '\u{1F5D3}' && w[1] == '\u{FE0F}');
    proof {
        if w@.len() == 1 {
            assert(w@ =~= seq![w@[0]]);
        }
        if w@.len() == 2 {
            assert(w@ =~= seq![w@[0], w@[1]]);
        }
    }
    r
}

fn is_done_m(w: &[char]) -> (r: bool)
    ensures
        r == is_done_marker(w@),
{
    let r = w.len() == 1 && w[0] == '\u{2705}';
    r
}

fn is_created_m(w: &[char]) -> (r: bool)
    ensures
        r == is_created_marker(w@),
{
    let r = w.len() == 1 && w[0] == '\u{2795}';
    r
}

fn is_skip(w: &[char]) -> (r: bool)
    ensures
        r == is_skip_tok(w@),
{
    let r = w.len() == 1 && (w[0] == '\u{23F3}' || w[0] == '\u{1F6EB}' || w[0] == '\u{1F194}'
        || w[0] == '\u{26D4}' || w[0] == '\u{1F3C1}');
    r
}

fn is_recur(w: &[char]) -> (r: bool)
    ensures
        r == is_recur_tok(w@),
{
    let r = w.len() == 1 && w[0] == '\u{1F501}';
    r
}

fn prio_tok(w: &[char]) -> (r: Option<Priority>)
    ensures
        r == prio_token(w@),
{
    if w.len() == 4 && w[0] == '(' && w[1] == 'p' && w[3] == ')' {
        if w[2] == '1' {
            Some(Priority::High)
        } else if w[2] == '2' {
            Some(Priority::Medium)
        } else if w[2] == '3' {
            Some(Priority::Low)
        } else {
            None
        }
    } else {
        None
    }
}

fn due_tok(w: &[char]) -> (r: Option<Date>)
    ensures
        r == due_token(w@),
{
    if w.len() >= 4 && w[0] == 'd' && w[1] == 'u' && w[2] == 'e' && w[3] == ':' {
        let val = subvec(w, 4, w.len());
        proof {
            assert(val@ =~= w@.skip(4));
        }
        parse_iso_date(val.as_slice())
    } else {
        None
    }
}

/// Whether `w` has any recognized metadata-token shape.
pub fn is_metadata_token(w: &[char]) -> (r: bool)
    ensures
        r == is_metadata_tok(w@),
{
    is_high(w) || is_medium(w) || is_low(w) || is_due_m(w) || is_done_m(w) || is_created_m(w)
        || is_skip(w) || is_recur(w) || (w.len() >= 1 && w[0] == '#') || (w.len() >= 4 && w[0]
        == 'd' && w[1] == 'u' && w[2] == 'e' && w[3] == ':') || prio_tok(w).is_some()
}

/// Words split off at most one word per character.
proof fn lemma_words_count(s: Seq<char>, cur: Seq<char>)
    ensures
        crate::text::words_rec(s, cur).len() <= s.len() + (if cur.len() > 0 {
            1int
        } else {
            0int
        }),
    decreases s.len(),
{
    if s.len() > 0 {
        if crate::text::ws_char(s[0]) {
            lemma_words_count(s.drop_first(), Seq::empty());
        } else {
            lemma_words_count(s.drop_first(), cur.push(s[0]));
        }
    }
}

/// Parses one checkbox line.
pub fn parse_checkbox_line(line: &str) -> (r: Option<ParsedTask>)
    ensures
        r is Some <==> md_parse(line@) is Some,
        r matches Some(p) ==> md_parse(line@) matches Some(f) && is_md_task(p, f),
{
    let cs = str_chars(line);
    let t = trim_front_vec(cs.as_slice());
    if !(t.len() >= 5 && t[0] == '-' && t[1] == ' ' && t[2] == '[' && t[4] == ']' && (t[3] == ' '
        || t[3] == 'x' || t[3] == 'X')) {
        return None;
    }
    let status = if t[3] == ' ' {
        TaskStatus::Pending
    } else {
        TaskStatus::Done
    };
    let sub = subvec(t.as_slice(), 5, t.len());
    proof {
        assert(sub@ =~= t@.skip(5));
    }
    let rest = trim_front_vec(sub.as_slice());
    if rest.len() == 0 {
        return None;
    }
    let words = split_words(rest.as_slice());
    proof {
        lemma_words_count(rest@, Seq::empty());
        crate::text::lemma_trim_front_len(cs@);
        crate::text::lemma_trim_front_len(sub@);
    }
    let ghost all = deep(words@);
    let mut title_words: Vec<Vec<char>> = Vec::new();
    let mut tags: Vec<String> = Vec::new();
    let mut priority = Priority::Unset;
    let mut due: Option<Date> = None;
    let mut completed_at: Option<Date> = None;
    let mut created_at: Option<Date> = None;
    let mut in_recur = false;
    let mut i: usize = 0;
    proof {
        assert(deep(title_words@) =~= Seq::<Seq<char>>::empty());
        assert(tags.deep_view() =~= Seq::<Seq<char>>::empty());
    }
    while i < words.len()
        invariant
            i <= words@.len() + 1,
            all == deep(words@),
            all.len() <= rest@.len() < usize::MAX - 4,
            md_scan(all, 0, empty_md_scan()) == md_scan(
                all,
                i as int,
                MdScan {
                    title_words: deep(title_words@),
                    tags: tags.deep_view(),
                    priority,
                    due,
                    completed_at,
                    created_at,
                    in_recur,
                },
            ),
        decreases words@.len() + 2 - i,
    {
        let ghost st0 = MdScan {
            title_words: deep(title_words@),
            tags: tags.deep_view(),
            priority,
            due,
            completed_at,
            created_at,
            in_recur,
        };
        let w = &words[i];
        proof {
            assert(all[i as int] == words@[i as int]@);
        }
        let ws = w.as_slice();
        if in_recur && !is_metadata_token(ws) {
            i += 1;
            proof {
                assert(md_scan(all, i - 1, st0) == md_scan(all, i as int, st0));
            }
        } else {
            in_recur = false;
            if is_high(ws) {
                priority = Priority::High;
                i += 1;
                proof {
                    assert(md_scan(all, i - 1, st0) == md_scan(all, i as int, MdScan {
                        priority: Priority::High,
                        in_recur: false,
                        ..st0
                    }));
                }
            } else if is_medium(ws) {
                priority = Priority::Medium;
                i += 1;
                proof {
                    assert(md_scan(all, i - 1, st0) == md_scan(all, i as int, MdScan {
                        title_words: deep(title_words@),
                        tags: tags.deep_view(),
                        priority,
                        due,
                        completed_at,
                        created_at,
                        in_recur,
                    }));
                }
            } else if is_low(ws) {
                priority = Priority::Low;
                i += 1;
                proof {
                    assert(md_scan(all, i - 1, st0) == md_scan(all, i as int, MdScan {
                        title_words: deep(title_words@),
                        tags: tags.deep_view(),
                        priority,
                        due,
                        completed_at,
                        created_at,
                        in_recur,
                    }));
                }
            } else if (is_due_m(ws) || is_done_m(ws) || is_created_m(ws)) && i + 1 < words.len() {
                let marker_due = is_due_m(ws);
                let marker_done = is_done_m(ws);
                proof {
                    assert(all[i + 1] == words@[i + 1]@);
                }
                match parse_iso_date(words[i + 1].as_slice()) {
                    Some(d) => {
                        if marker_due {
                            due = Some(d);
                        } else if marker_done {
                            completed_at = Some(d);
                        } else {
                            created_at = Some(d);
                        }
                        i += 2;
                        proof {
                            assert(md_scan(all, i - 2, st0) == md_scan(all, i as int, MdScan {
                                title_words: deep(title_words@),
                                tags: tags.deep_view(),
                                priority,
                                due,
                                completed_at,
                                created_at,
                                in_recur: false,
                            }));
                        }
                    },
                    None => {
                        let handled = dispatch_rest(
                            ws,
                            &mut priority,
                            &mut due,
                            &mut in_recur,
                            &mut tags,
                        );
                        if !handled {
                            let kept = subvec(ws, 0, w.len());
                            proof {
                                assert(kept@ =~= all[i as int]);
                                assert(deep(title_words@).push(kept@) =~= deep(
                                    title_words@.push(kept),
                                ));
                            }
                            title_words.push(kept);
                        }
                        i += 1;
                        proof {
                            assert(!is_recur_tok(ws@));
                            assert(prio_token(ws@) is None);
                            assert(!(ws@.len() >= 1 && ws@[0] == '#'));
                            assert(due_token(ws@) is None);
                            assert(!handled);
                            assert(md_scan(all, i - 1, st0) == md_scan(all, i as int, MdScan {
                                title_words: deep(title_words@),
                                tags: tags.deep_view(),
                                priority,
                                due,
                                completed_at,
                                created_at,
                                in_recur,
                            }));
                        }
                    },
                }
            } else if is_skip(ws) {
                i += 2;
                proof {
                    assert(md_scan(all, i - 2, st0) == md_scan(all, i as int, MdScan {
                        in_recur: false,
                        ..st0
                    }));
                }
            } else {
                let handled = dispatch_rest(ws, &mut priority, &mut due, &mut in_recur, &mut tags);
                if !handled {
                    let kept = subvec(ws, 0, w.len());
                    proof {
                        assert(kept@ =~= all[i as int]);
                        assert(deep(title_words@).push(kept@) =~= deep(title_words@.push(kept)));
                    }
                    title_words.push(kept);
                }
                i += 1;
                proof {
                    assert(md_scan(all, i - 1, st0) == md_scan(all, i as int, MdScan {
                        title_words: deep(title_words@),
                        tags: tags.deep_view(),
                        priority,
                        due,
                        completed_at,
                        created_at,
                        in_recur,
                    }));
                }
            }
        }
        proof {
            assert(md_scan(all, 0, empty_md_scan()) == md_scan(all, i as int, MdScan {
                title_words: deep(title_words@),
                tags: tags.deep_view(),
                priority,
                due,
                completed_at,
                created_at,
                in_recur,
            }));
        }
    }
    if title_words.len() == 0 {
        return None;
    }
    let sep: Vec<char> = vec![' '];
    proof {
        assert(sep@ =~= seq![' ']);
    }
    let title_cs = crate::text::join_chars(&title_words, sep.as_slice());
    let title = chars_string(title_cs.as_slice());
    Some(ParsedTask { title, status, priority, due, completed_at, created_at, tags })
}

/// A code-fence toggle line: its trimmed text starts with three backticks.
pub open spec fn is_fence_line(l: Seq<char>) -> bool {
    let t = trim_both(l);
    t.len() >= 3 && t[0] == '`' && t[1] == '`' && t[2] == '`'
}

/// The fence flag after scanning `ls`, starting from `f`: every fence
/// line flips it.
pub open spec fn fence_after(ls: Seq<Seq<char>>, f: bool) -> bool
    decreases ls.len(),
{
    if ls.len() == 0 {
        f
    } else {
        fence_after(
            ls.drop_first(),
            if is_fence_line(ls[0]) {
                !f
            } else {
                f
            },
        )
    }
}

/// What one line contributes to a file scan: nothing for fence lines and
/// lines inside a fence, else its parse.
pub open spec fn md_line_entry(l: Seq<char>, n: int, fence: bool) -> Seq<(int, MdFields)> {
    if is_fence_line(l) || fence {
        Seq::empty()
    } else {
        match md_parse(l) {
            Some(f) => seq![(n, f)],
            None => Seq::empty(),
        }
    }
}

/// The file scan: checkbox tasks of every line outside code fences, with
/// their 1-indexed line numbers, `i0` the number of the first line.
pub open spec fn md_file_scan(ls: Seq<Seq<char>>, i0: int, fence: bool) -> Seq<(int, MdFields)>
    decreases ls.len(),
{
    if ls.len() == 0 {
        Seq::empty()
    } else {
        md_line_entry(ls[0], i0, fence) + md_file_scan(
            ls.drop_first(),
            i0 + 1,
            if is_fence_line(ls[0]) {
                !fence
            } else {
                fence
            },
        )
    }
}

/// The tasks of a whole markdown file.
pub open spec fn md_file_tasks(content: Seq<char>) -> Seq<(int, MdFields)> {
    md_file_scan(lines_of(content), 1, false)
}

pub proof fn lemma_md_file_scan_push(ls: Seq<Seq<char>>, i0: int, f: bool, l: Seq<char>)
    ensures
        md_file_scan(ls.push(l), i0, f) == md_file_scan(ls, i0, f) + md_line_entry(
            l,
            i0 + ls.len(),
            fence_after(ls, f),
        ),
        fence_after(ls.push(l), f) == (if is_fence_line(l) {
            !fence_after(ls, f)
        } else {
            fence_after(ls, f)
        }),
    decreases ls.len(),
{
    let fl = if is_fence_line(l) {
        !f
    } else {
        f
    };
    if ls.len() == 0 {
        assert(ls.push(l)[0] == l);
        assert(ls.push(l).drop_first() =~= Seq::<Seq<char>>::empty());
        let g = if is_fence_line(l) {
            !f
        } else {
            f
        };
        assert(md_file_scan(ls.push(l).drop_first(), i0 + 1, g) =~= Seq::<(int, MdFields)>::empty());
        assert(fence_after(ls.push(l).drop_first(), g) == g);
        assert(fence_after(ls.push(l), f) == g);
        assert(fence_after(ls, f) == f);
        assert(md_file_scan(ls, i0, f) =~= Seq::<(int, MdFields)>::empty());
        assert(md_file_scan(ls.push(l), i0, f) =~= md_file_scan(ls, i0, f) + md_line_entry(
            l,
            i0 + ls.len(),
            fence_after(ls, f),
        ));
    } else {
        assert(ls.push(l)[0] == ls[0]);
        assert(ls.push(l).drop_first() =~= ls.drop_first().push(l));
        let f2 = if is_fence_line(ls[0]) {
            !f
        } else {
            f
        };
        lemma_md_file_scan_push(ls.drop_first(), i0 + 1, f2, l);
        assert(fence_after(ls.push(l), f) == fence_after(ls.drop_first().push(l), f2));
        assert(fence_after(ls, f) == fence_after(ls.drop_first(), f2));
        assert(md_file_scan(ls.push(l), i0, f) =~= md_file_scan(ls, i0, f) + md_line_entry(
            l,
            i0 + ls.len(),
            fence_after(ls, f),
        ));
    }
}

/// Every entry of a file scan has a line number at or past the first.
pub proof fn lemma_md_file_scan_lower(ls: Seq<Seq<char>>, i0: int, f: bool)
    ensures
        forall|k: int|
            0 <= k < md_file_scan(ls, i0, f).len() ==> #[trigger] md_file_scan(ls, i0, f)[k].0
                >= i0,
    decreases ls.len(),
{
    if ls.len() > 0 {
        let f2 = if is_fence_line(ls[0]) {
            !f
        } else {
            f
        };
        lemma_md_file_scan_lower(ls.drop_first(), i0 + 1, f2);
        let whole = md_file_scan(ls, i0, f);
        let head = md_line_entry(ls[0], i0, f);
        let tail = md_file_scan(ls.drop_first(), i0 + 1, f2);
        assert(whole == head + tail);
        assert forall|k: int| 0 <= k < whole.len() implies #[trigger] whole[k].0 >= i0 by {
            if k < head.len() {
                assert(whole[k] == head[k]);
                assert(head[0].0 == i0);
            } else {
                assert(whole[k] == tail[k - head.len()]);
            }
        }
    }
}

/// Lines scanned while the fence flag is set never produce a task: if the
/// flag is set when line `j` of `ls` is reached, no scan entry carries its
/// line number.
pub proof fn lemma_md_file_scan_fenced(ls: Seq<Seq<char>>, i0: int, f: bool, j: int)
    requires
        0 <= j < ls.len(),
        fence_after(ls.take(j), f),
    ensures
        forall|k: int|
            0 <= k < md_file_scan(ls, i0, f).len() ==> #[trigger] md_file_scan(ls, i0, f)[k].0 != i0
                + j,
    decreases ls.len(),
{
    let f2 = if is_fence_line(ls[0]) {
        !f
    } else {
        f
    };
    if j == 0 {
        assert(ls.take(0) =~= Seq::<Seq<char>>::empty());
        assert(fence_after(ls.take(0), f) == f);
        lemma_md_file_scan_lower(ls.drop_first(), i0 + 1, f2);
        assert(md_line_entry(ls[0], i0, f) =~= Seq::<(int, MdFields)>::empty());
        let whole = md_file_scan(ls, i0, f);
        let tail = md_file_scan(ls.drop_first(), i0 + 1, f2);
        assert(whole =~= tail);
        assert forall|k: int| 0 <= k < whole.len() implies #[trigger] whole[k].0 != i0 + j by {
            assert(whole[k] == tail[k]);
            assert(tail[k].0 >= i0 + 1);
        }
    } else {
        assert(ls.take(j)[0] == ls[0]);
        assert(ls.take(j).drop_first() =~= ls.drop_first().take(j - 1));
        lemma_md_file_scan_fenced(ls.drop_first(), i0 + 1, f2, j - 1);
        lemma_md_file_scan_lower(ls, i0, f);
        assert forall|k: int| 0 <= k < md_file_scan(ls, i0, f).len() implies #[trigger] md_file_scan(
            ls,
            i0,
            f,
        )[k].0 != i0 + j by {
            let whole = md_file_scan(ls, i0, f);
            let head = md_line_entry(ls[0], i0, f);
            let tail = md_file_scan(ls.drop_first(), i0 + 1, f2);
            assert(whole == head + tail);
            if k >= head.len() {
                assert(whole[k] == tail[k - head.len()]);
            } else {
                assert(head.len() == 1 && k == 0 && whole[k].0 == i0);
            }
        }
    }
}

/// Lines strictly inside a fenced code block never produce a task: if the
/// fence flag is set when line `j` (0-indexed) of the content is reached,
/// no task of the file carries line number `j + 1`, however the line
/// looks.
pub proof fn lemma_fenced_line_not_task(content: Seq<char>, j: int)
    requires
        0 <= j < lines_of(content).len(),
        fence_after(lines_of(content).take(j), false),
    ensures
        forall|k: int|
            0 <= k < md_file_tasks(content).len() ==> #[trigger] md_file_tasks(content)[k].0 != j
                + 1,
{
    lemma_md_file_scan_fenced(lines_of(content), 1, false, j);
}

/// Parses the checkbox tasks of a whole markdown file, skipping fenced
/// code blocks; results carry 1-indexed line numbers.
pub fn parse_file(content: &str) -> (r: Vec<(usize, ParsedTask)>)
    ensures
        ({
            let sel = md_file_tasks(content@);
            &&& r@.len() == sel.len()
            &&& forall|k: int|
                0 <= k < sel.len() ==> (#[trigger] r@[k]).0 == sel[k].0 && is_md_task(
                    r@[k].1,
                    sel[k].1,
                )
        }),
{
    let ls = crate::mutate::split_content(content);
    let ghost lines = lines_of(content@);
    let mut out: Vec<(usize, ParsedTask)> = Vec::new();
    let mut fence = false;
    let mut i: usize = 0;
    proof {
        assert(lines.take(0) =~= Seq::<Seq<char>>::empty());
    }
    while i < ls.len()
        invariant
            i <= ls@.len(),
            deep(ls@) == lines,
            fence == fence_after(lines.take(i as int), false),
            ({
                let sel = md_file_scan(lines.take(i as int), 1, false);
                &&& out@.len() == sel.len()
                &&& forall|k: int|
                    0 <= k < sel.len() ==> (#[trigger] out@[k]).0 == sel[k].0 && is_md_task(
                        out@[k].1,
                        sel[k].1,
                    )
            }),
        decreases ls@.len() - i,
    {
        let line = &ls[i];
        proof {
            assert(lines[i as int] == ls@[i as int]@);
            assert(lines.take(i + 1) =~= lines.take(i as int).push(lines[i as int]));
            lemma_md_file_scan_push(lines.take(i as int), 1, false, lines[i as int]);
        }
        let t = trim_vec(line.as_slice());
        if t.len() >= 3 && t[0] == '`' && t[1] == '`' && t[2] == '`' {
            fence = !fence;
        } else if !fence {
            let line_s = chars_string(line.as_slice());
            match parse_checkbox_line(line_s.as_str()) {
                Some(p) => {
                    out.push((i + 1, p));
                },
                None => {},
            }
        }
        i += 1;
    }
    proof {
        assert(lines.take(lines.len() as int) =~= lines);
    }
    out
}

/// Handles one token past the glyph rules: a recurrence start, an inline
/// priority, a tag, or a `due:` token; `false` means a literal title word.
fn dispatch_rest(
    w: &[char],
    priority: &mut Priority,
    due: &mut Option<Date>,
    in_recur: &mut bool,
    tags: &mut Vec<String>,
) -> (handled: bool)
    requires
        !is_high_tok(w@),
        !is_medium_tok(w@),
        !is_low_tok(w@),
    ensures
        ({
            if is_recur_tok(w@) {
                handled && *final(priority) == *old(priority) && *final(due) == *old(due) && final(tags)@ == old(tags)@
            } else if prio_token(w@) is Some {
                handled && *final(priority) == prio_token(w@)->0 && *final(due) == *old(due)
                    && final(tags)@ == old(tags)@
            } else if w@.len() >= 1 && w@[0] == '#' {
                handled && *final(priority) == *old(priority) && *final(due) == *old(due) && (
                if w@.len() >= 2 {
                    final(tags).deep_view() == old(tags).deep_view().push(w@.skip(1))
                } else {
                    final(tags)@ == old(tags)@
                })
            } else if due_token(w@) is Some {
                handled && *final(priority) == *old(priority) && *final(due) == due_token(w@)
                    && final(tags)@ == old(tags)@
            } else {
                !handled && *final(priority) == *old(priority) && *final(due) == *old(due) && final(tags)@ == old(tags)@
            }
        }),
        *final(in_recur) == is_recur_tok(w@),
{
    *in_recur = false;
    if is_recur(w) {
        *in_recur = true;
        return true;
    }
    match prio_tok(w) {
        Some(p) => {
            *priority = p;
            return true;
        },
        None => {},
    }
    if w.len() >= 1 && w[0] == '#' {
        if w.len() >= 2 {
            let body = subvec(w, 1, w.len());
            proof {
                assert(body@ =~= w@.skip(1));
            }
            let ghost t0 = tags.deep_view();
            tags.push(chars_string(body.as_slice()));
            proof {
                assert(tags.deep_view() =~= t0.push(w@.skip(1)));
            }
        }
        return true;
    }
    match due_tok(w) {
        Some(d) => {
            *due = Some(d);
            true
        },
        None => false,
    }
}

/// A word the checkbox scanner treats as title text: non-empty,
/// whitespace-free, and of no recognized metadata shape.
pub open spec fn md_title_word(w: Seq<char>) -> bool {
    crate::text::plain_word(w) && !is_metadata_tok(w)
}

/// Scanning a run of title words appends exactly those words and changes
/// nothing else.
proof fn lemma_md_scan_titles_seg(ws: Seq<Seq<char>>, i: int, j: int, acc: MdScan)
    requires
        0 <= i <= j <= ws.len(),
        !acc.in_recur,
        forall|k: int| i <= k < j ==> md_title_word(#[trigger] ws[k]),
    ensures
        md_scan(ws, i, acc) == md_scan(
            ws,
            j,
            MdScan { title_words: acc.title_words + ws.subrange(i, j), ..acc },
        ),
    decreases j - i,
{
    if i < j {
        let acc2 = MdScan { title_words: acc.title_words.push(ws[i]), ..acc };
        assert(MdScan { in_recur: false, ..acc } == acc);
        assert(md_scan(ws, i, acc) == md_scan(ws, i + 1, acc2));
        lemma_md_scan_titles_seg(ws, i + 1, j, acc2);
        assert(acc2.title_words + ws.subrange(i + 1, j) =~= acc.title_words + ws.subrange(i, j));
    } else {
        assert(acc.title_words + ws.subrange(i, i) =~= acc.title_words);
        assert(MdScan { title_words: acc.title_words + ws.subrange(i, j), ..acc } == acc);
    }
}

/// Scanning a run of non-empty tag words collects exactly their bodies.
proof fn lemma_md_scan_tags_seg(ws: Seq<Seq<char>>, i: int, ts: Seq<Seq<char>>, acc: MdScan)
    requires
        0 <= i,
        i + ts.len() <= ws.len(),
        i + ts.len() == ws.len(),
        !acc.in_recur,
        forall|k: int| 0 <= k < ts.len() ==> ws[i + k] == seq!['#'] + #[trigger] ts[k],
        forall|k: int| 0 <= k < ts.len() ==> (#[trigger] ts[k]).len() >= 1,
    ensures
        md_scan(ws, i, acc) == (MdScan { tags: acc.tags + ts, ..acc }),
    decreases ts.len(),
{
    if ts.len() == 0 {
        assert(acc.tags + ts =~= acc.tags);
        assert(MdScan { tags: acc.tags + ts, ..acc } == acc);
    } else {
        let w = ws[i];
        assert(w == seq!['#'] + ts[0]);
        assert(w.len() >= 2);
        assert(w[0] == '#');
        assert(!is_high_tok(w) && !is_medium_tok(w) && !is_low_tok(w));
        assert(!is_due_marker(w) && !is_done_marker(w) && !is_created_marker(w));
        assert(!is_skip_tok(w) && !is_recur_tok(w));
        assert(crate::localfile::prio_token(w) is None);
        let acc2 = MdScan { tags: acc.tags.push(w.skip(1)), ..acc };
        assert(MdScan { in_recur: false, ..acc } == acc);
        assert(md_scan(ws, i, acc) == md_scan(ws, i + 1, acc2));
        let ts2 = ts.drop_first();
        assert forall|k: int| 0 <= k < ts2.len() implies ws[(i + 1) + k] == seq!['#']
            + #[trigger] ts2[k] by {
            assert(ws[i + (k + 1)] == seq!['#'] + ts[k + 1]);
        }
        lemma_md_scan_tags_seg(ws, i + 1, ts2, acc2);
        assert(w.skip(1) =~= ts[0]);
        assert(acc2.tags + ts2 =~= acc.tags + ts);
        assert(MdScan { tags: acc2.tags + ts2, ..acc2 } == (MdScan { tags: acc.tags + ts, ..acc }));
    }
}

/// The words of a rebuilt checkbox line after the checkbox: title words,
/// then the priority glyph, the due marker and date, and the tags.
pub open spec fn md_rest_words(
    tws: Seq<Seq<char>>,
    priority: Priority,
    due: Option<Date>,
    tags: Seq<Seq<char>>,
) -> Seq<Seq<char>> {
    tws + (match priority {
        Priority::Unset => Seq::<Seq<char>>::empty(),
        Priority::High => seq![seq!['\u{23EB}']],
        Priority::Medium => seq![seq!['\u{1F53C}']],
        Priority::Low => seq![seq!['\u{1F53D}']],
    }) + (match due {
        Some(d) => seq![seq!['\u{1F4C5}'], crate::date::format_iso(d)],
        None => Seq::<Seq<char>>::empty(),
    }) + crate::localfile::flat_tag_words(tags)
}

/// The tag segment is a space followed by the joined tag words.
proof fn lemma_md_tags_seg_join(tags: Seq<Seq<char>>)
    requires
        tags.len() > 0,
    ensures
        crate::obsidian::md_tags_seg(tags) == seq![' '] + join_with(
            crate::localfile::flat_tag_words(tags),
            seq![' '],
        ),
    decreases tags.len(),
{
    let sp = seq![' '];
    let tw = crate::localfile::flat_tag_words(tags);
    if tags.len() == 1 {
        assert(crate::obsidian::md_tags_seg(tags) == crate::obsidian::md_tags_seg(
            tags.drop_last(),
        ) + seq![' ', '#'] + tags.last());
        assert(tags.drop_last() =~= Seq::<Seq<char>>::empty());
        assert(crate::obsidian::md_tags_seg(Seq::empty()) =~= Seq::<char>::empty());
        assert(tw =~= seq![seq!['#'] + tags[0]]);
        assert(join_with(tw, sp) == seq!['#'] + tags[0]);
        assert(crate::obsidian::md_tags_seg(tags) =~= seq![' '] + (seq!['#'] + tags[0]));
    } else {
        let t0 = tags.drop_last();
        lemma_md_tags_seg_join(t0);
        let tw0 = crate::localfile::flat_tag_words(t0);
        assert(tw =~= tw0.push(seq!['#'] + tags.last()));
        crate::text::lemma_join_push(tw0, sp, seq!['#'] + tags.last());
        assert(tw0.len() > 0);
        assert(crate::obsidian::md_tags_seg(tags) == crate::obsidian::md_tags_seg(t0) + seq![
            ' ',
            '#',
        ] + tags.last());
        assert(crate::obsidian::md_tags_seg(tags) =~= seq![' '] + join_with(tw, sp));
    }
}

/// The rebuilt line's checkbox head parses back to the status, and the
/// remainder splits into exactly the rebuilt words.
#[verifier::rlimit(60)]
proof fn lemma_md_line_structure(
    status: TaskStatus,
    tws: Seq<Seq<char>>,
    priority: Priority,
    due: Option<Date>,
    tags: Seq<Seq<char>>,
)
    requires
        due matches Some(d) ==> d.valid(),
        tws.len() >= 1,
        forall|k: int| 0 <= k < tws.len() ==> md_title_word(#[trigger] tws[k]),
        forall|k: int| 0 <= k < tags.len() ==> (#[trigger] tags[k]).len() >= 1,
        forall|k: int, i: int|
            0 <= k < tags.len() && 0 <= i < tags[k].len() ==> !crate::text::ws_char(
                #[trigger] tags[k][i],
            ),
    ensures
        md_head(
            crate::obsidian::md_format_line(
                status,
                join_with(tws, seq![' ']),
                priority,
                due,
                tags,
            ),
        ) == Some(
            (status, join_with(md_rest_words(tws, priority, due, tags), seq![' '])),
        ),
        join_with(md_rest_words(tws, priority, due, tags), seq![' ']).len() > 0,
        words_of(join_with(md_rest_words(tws, priority, due, tags), seq![' '])) == md_rest_words(
            tws,
            priority,
            due,
            tags,
        ),
{
    let sp = seq![' '];
    let title = join_with(tws, sp);
    let line = crate::obsidian::md_format_line(status, title, priority, due, tags);
    let rest = md_rest_words(tws, priority, due, tags);
    let prw: Seq<Seq<char>> = match priority {
        Priority::Unset => Seq::<Seq<char>>::empty(),
        Priority::High => seq![seq!['\u{23EB}']],
        Priority::Medium => seq![seq!['\u{1F53C}']],
        Priority::Low => seq![seq!['\u{1F53D}']],
    };
    let duw: Seq<Seq<char>> = match due {
        Some(d) => seq![seq!['\u{1F4C5}'], crate::date::format_iso(d)],
        None => Seq::<Seq<char>>::empty(),
    };
    let tagw = crate::localfile::flat_tag_words(tags);
    let boxpart = if status is Done {
        crate::obsidian::box_done()
    } else {
        crate::obsidian::box_pending()
    };

    // All rest words are plain.
    if due is Some {
        crate::localfile::lemma_format_iso_plain(due->0);
    }
    assert forall|k: int| 0 <= k < rest.len() implies crate::text::plain_word(
        #[trigger] rest[k],
    ) by {
        if k < tws.len() {
            assert(rest[k] == tws[k]);
        } else if k < tws.len() + prw.len() {
            assert(rest[k] == prw[0]);
        } else if k < tws.len() + prw.len() + duw.len() {
            let k2 = k - tws.len() - prw.len();
            assert(rest[k] == duw[k2]);
        } else {
            let k3 = k - tws.len() - prw.len() - duw.len();
            assert(rest[k] == tagw[k3]);
            assert(tagw[k3] == seq!['#'] + tags[k3]);
            assert forall|i: int| 0 <= i < rest[k].len() implies !crate::text::ws_char(
                #[trigger] rest[k][i],
            ) by {
                if i >= 1 {
                    assert(rest[k][i] == tags[k3][i - 1]);
                }
            }
        }
    }

    // The line is the checkbox, a space, and the joined rest words.
    let seg1 = tws + prw;
    let seg2 = seg1 + duw;
    assert(rest =~= seg2 + tagw);
    let body = join_with(rest, sp);
    assert(title + crate::obsidian::md_prio_seg(priority) == join_with(seg1, sp)) by {
        if priority is Unset {
            assert(seg1 =~= tws);
            assert(crate::obsidian::md_prio_seg(priority) =~= Seq::<char>::empty());
            assert(title + Seq::<char>::empty() =~= title);
        } else {
            crate::text::lemma_join_push(tws, sp, prw[0]);
            assert(seg1 =~= tws.push(prw[0]));
            assert(title + crate::obsidian::md_prio_seg(priority) =~= join_with(tws, sp) + sp
                + prw[0]);
        }
    }
    assert(join_with(seg1, sp) + crate::obsidian::md_due_seg(due) == join_with(seg2, sp)) by {
        if due is None {
            assert(seg2 =~= seg1);
            assert(crate::obsidian::md_due_seg(due) =~= Seq::<char>::empty());
            assert(join_with(seg1, sp) + Seq::<char>::empty() =~= join_with(seg1, sp));
        } else {
            assert(seg1.len() > 0);
            assert(duw.len() > 0);
            crate::text::lemma_join_concat(seg1, duw, sp);
            assert(duw.drop_first() =~= seq![crate::date::format_iso(due->0)]);
            assert(join_with(seq![crate::date::format_iso(due->0)], sp) == crate::date::format_iso(
                due->0,
            ));
            assert(join_with(duw, sp) == seq!['\u{1F4C5}'] + sp + crate::date::format_iso(due->0));
            assert(crate::obsidian::md_due_seg(due) =~= sp + (seq!['\u{1F4C5}'] + sp
                + crate::date::format_iso(due->0)));
            assert(join_with(seg1, sp) + crate::obsidian::md_due_seg(due) =~= join_with(seg1, sp)
                + sp + join_with(duw, sp));
        }
    }
    assert(join_with(seg2, sp) + crate::obsidian::md_tags_seg(tags) == body) by {
        if tags.len() == 0 {
            assert(rest =~= seg2);
            assert(crate::obsidian::md_tags_seg(tags) =~= Seq::<char>::empty());
            assert(join_with(seg2, sp) + Seq::<char>::empty() =~= join_with(seg2, sp));
        } else {
            assert(seg2.len() > 0);
            assert(tagw.len() > 0);
            crate::text::lemma_join_concat(seg2, tagw, sp);
            lemma_md_tags_seg_join(tags);
            assert(join_with(seg2, sp) + crate::obsidian::md_tags_seg(tags) =~= join_with(
                seg2,
                sp,
            ) + sp + join_with(tagw, sp));
        }
    }
    assert(line =~= boxpart + sp + body);

    // The checkbox head parses.
    assert(line[0] == '-');
    assert(!crate::text::ws_char('-'));
    assert(trim_front(line) == line);
    assert(line.len() >= 5);
    assert(line[1] == ' ' && line[2] == '[' && line[4] == ']');
    assert(line[3] == (if status is Done {
        'x'
    } else {
        ' '
    }));
    assert(line.skip(5) =~= sp + body);
    assert((sp + body)[0] == ' ');
    assert((sp + body).drop_first() =~= body);
    crate::text::lemma_trim_join(rest);
    assert(trim_front(line.skip(5)) == body);
    assert(md_head(line) matches Some(h) && h.0 == status && h.1 == body);
    crate::text::lemma_join_ends(rest);
    assert(body.len() > 0);

    crate::text::lemma_words_of_join(rest);
    assert(words_of(body) == rest);
}

/// The token scan of the rebuilt words yields exactly the title words,
/// priority, due date and tags.
#[verifier::rlimit(60)]
proof fn lemma_md_scan_of_rest(
    status: TaskStatus,
    tws: Seq<Seq<char>>,
    priority: Priority,
    due: Option<Date>,
    tags: Seq<Seq<char>>,
)
    requires
        due matches Some(d) ==> d.valid(),
        tws.len() >= 1,
        forall|k: int| 0 <= k < tws.len() ==> md_title_word(#[trigger] tws[k]),
        forall|k: int| 0 <= k < tags.len() ==> (#[trigger] tags[k]).len() >= 1,
        forall|k: int, i: int|
            0 <= k < tags.len() && 0 <= i < tags[k].len() ==> !crate::text::ws_char(
                #[trigger] tags[k][i],
            ),
    ensures
        ({
            let scan = md_scan(md_rest_words(tws, priority, due, tags), 0, empty_md_scan());
            &&& scan.title_words == tws
            &&& scan.priority == priority
            &&& scan.due == due
            &&& scan.tags == tags
            &&& scan.completed_at is None
            &&& scan.created_at is None
        }),
{
    let sp = seq![' '];
    let rest = md_rest_words(tws, priority, due, tags);
    let prw: Seq<Seq<char>> = match priority {
        Priority::Unset => Seq::<Seq<char>>::empty(),
        Priority::High => seq![seq!['\u{23EB}']],
        Priority::Medium => seq![seq!['\u{1F53C}']],
        Priority::Low => seq![seq!['\u{1F53D}']],
    };
    let duw: Seq<Seq<char>> = match due {
        Some(d) => seq![seq!['\u{1F4C5}'], crate::date::format_iso(d)],
        None => Seq::<Seq<char>>::empty(),
    };
    let tagw = crate::localfile::flat_tag_words(tags);
    lemma_md_scan_titles_seg(rest, 0, tws.len() as int, empty_md_scan());
    let acc1 = MdScan {
        title_words: empty_md_scan().title_words + rest.subrange(0, tws.len() as int),
        ..empty_md_scan()
    };
    assert(rest.subrange(0, tws.len() as int) =~= tws);
    assert(acc1.title_words =~= tws);
    let i1 = tws.len() as int;
    let acc2: MdScan;
    let i2: int;
    if priority is Unset {
        acc2 = acc1;
        i2 = i1;
    } else {
        let g = prw[0];
        assert(rest[i1] == g);
        assert(!acc1.in_recur);
        assert(MdScan { in_recur: false, ..acc1 } == acc1);
        if priority is High {
            assert(is_high_tok(g));
            acc2 = MdScan { priority: Priority::High, ..acc1 };
        } else if priority is Medium {
            assert(is_medium_tok(g));
            assert(!is_high_tok(g));
            acc2 = MdScan { priority: Priority::Medium, ..acc1 };
        } else {
            assert(is_low_tok(g));
            assert(!is_high_tok(g) && !is_medium_tok(g));
            acc2 = MdScan { priority: Priority::Low, ..acc1 };
        }
        assert(md_scan(rest, i1, acc1) == md_scan(rest, i1 + 1, acc2));
        i2 = i1 + 1;
    }
    let acc3: MdScan;
    let i3: int;
    if due is None {
        acc3 = acc2;
        i3 = i2;
    } else {
        let m = seq!['\u{1F4C5}'];
        assert(rest[i2] == m);
        assert(rest[i2 + 1] == crate::date::format_iso(due->0));
        assert(is_due_marker(m));
        assert(!is_high_tok(m) && !is_medium_tok(m) && !is_low_tok(m));
        crate::date::lemma_iso_roundtrip(due->0);
        assert(crate::date::parse_iso(rest[i2 + 1]) == Some(due->0));
        assert(i2 + 1 < rest.len());
        assert(!acc2.in_recur);
        assert(MdScan { in_recur: false, ..acc2 } == acc2);
        acc3 = MdScan { due: Some(due->0), ..acc2 };
        assert(md_scan(rest, i2, acc2) == md_scan(rest, i2 + 2, acc3));
        i3 = i2 + 2;
    }
    assert(i3 + tags.len() == rest.len());
    assert forall|k: int| 0 <= k < tags.len() implies rest[i3 + k] == seq!['#']
        + #[trigger] tags[k] by {
        assert(rest[i3 + k] == tagw[k]);
    }
    assert(!acc3.in_recur);
    lemma_md_scan_tags_seg(rest, i3, tags, acc3);
    let scan = md_scan(rest, 0, empty_md_scan());
    assert(scan == (MdScan { tags: acc3.tags + tags, ..acc3 }));
    assert(scan.tags =~= tags);
    assert(scan.title_words == acc1.title_words);
    assert(scan.priority == priority);
    assert(scan.due == due);
    assert(scan.completed_at is None && scan.created_at is None);
}


/// Format-then-parse for the checkbox codec: a rebuilt checkbox line
/// parses back to exactly the status, title, priority, due date and tags
/// it was written from. Title words must carry no recognized metadata
/// shape; tags must be non-empty and whitespace-free.
pub proof fn lemma_md_roundtrip(
    status: TaskStatus,
    tws: Seq<Seq<char>>,
    priority: Priority,
    due: Option<Date>,
    tags: Seq<Seq<char>>,
)
    requires
        due matches Some(d) ==> d.valid(),
        tws.len() >= 1,
        forall|k: int| 0 <= k < tws.len() ==> md_title_word(#[trigger] tws[k]),
        forall|k: int| 0 <= k < tags.len() ==> (#[trigger] tags[k]).len() >= 1,
        forall|k: int, i: int|
            0 <= k < tags.len() && 0 <= i < tags[k].len() ==> !crate::text::ws_char(
                #[trigger] tags[k][i],
            ),
    ensures
        md_parse(
            crate::obsidian::md_format_line(
                status,
                join_with(tws, seq![' ']),
                priority,
                due,
                tags,
            ),
        ) matches Some(f) && f.status == status && f.priority == priority && f.title == join_with(
            tws,
            seq![' '],
        ) && f.tags == tags && f.due == due && f.completed_at is None && f.created_at is None,
{
    lemma_md_line_structure(status, tws, priority, due, tags);
    lemma_md_scan_of_rest(status, tws, priority, due, tags);
    let scan = md_scan(md_rest_words(tws, priority, due, tags), 0, empty_md_scan());
    assert(scan.title_words.len() >= 1);
}

} // verus!
