//! The flat-file codec: one task per non-empty, non-comment line of a
//! single todo file, with an optional `x` completion prefix, `(p1)`-style
//! priorities, ISO dates, `#tags` and a `due:` token.
use vstd::prelude::*;
use crate::date::{Date, parse_iso, parse_iso_date, format_iso, push_iso_date};
use crate::error::TasukiError;
use crate::model::{BackendSource, NewTask, Priority, Task, TaskFilter, TaskStatus, TaskUpdate};
use crate::text::{
    all_digits, dec_val, deep, join_with, lines_of, parse_decimal, split_words, str_chars, subvec,
    trim_front, trim_front_vec, trim_both, trim_vec, words_of, chars_string, dec_chars,
    push_decimal, push_all, lower_of, find_from, lowercase, contains_sub,
};

verus! {

/// The fields a flat-file line parses to.
pub struct FlatFields {
    pub status: TaskStatus,
    pub priority: Priority,
    pub completed_at: Option<Date>,
    pub created_at: Option<Date>,
    pub title: Seq<char>,
    pub tags: Seq<Seq<char>>,
    pub due: Option<Date>,
}

/// A greedily consumed date: leading whitespace skipped, the next ten
/// characters a valid `YYYY-MM-DD` date, the rest trimmed at the front.
pub open spec fn date_prefix(s: Seq<char>) -> Option<(Date, Seq<char>)> {
    let t = trim_front(s);
    if t.len() >= 10 && parse_iso(t.take(10)) is Some {
        Some((parse_iso(t.take(10))->0, trim_front(t.skip(10))))
    } else {
        None
    }
}

/// `(p1)`, `(p2)` or `(p3)`, mapping to High, Medium, Low.
pub open spec fn prio_token(w: Seq<char>) -> Option<Priority> {
    if w.len() == 4 && w[0] == '(' && w[1] == 'p' && w[3] == ')' {
        if w[2] == '1' {
            Some(Priority::High)
        } else if w[2] == '2' {
            Some(Priority::Medium)
        } else if w[2] == '3' {
            Some(Priority::Low)
        } else {
            None
        }
    } else {
        None
    }
}

/// Whether `w` is a `due:` token carrying a valid date.
pub open spec fn due_token(w: Seq<char>) -> Option<Date> {
    if w.len() >= 4 && w[0] == 'd' && w[1] == 'u' && w[2] == 'e' && w[3] == ':' && parse_iso(
        w.skip(4),
    ) is Some {
        parse_iso(w.skip(4))
    } else {
        None
    }
}

/// Scan state for the word loop: title words, tags, due date.
pub struct FlatScan {
    pub title_words: Seq<Seq<char>>,
    pub tags: Seq<Seq<char>>,
    pub due: Option<Date>,
}

/// The word loop: `#tags` and valid `due:` tokens anywhere in the
/// remainder; every other word belongs to the title.
pub open spec fn flat_scan(ws: Seq<Seq<char>>, i: int, acc: FlatScan) -> FlatScan
    decreases ws.len() - i,
{
    if i < 0 || i >= ws.len() {
        acc
    } else {
        let w = ws[i];
        let acc2 = if w.len() >= 1 && w[0] == '#' {
            FlatScan { tags: acc.tags.push(w.skip(1)), ..acc }
        } else if due_token(w) is Some {
            FlatScan { due: due_token(w), ..acc }
        } else {
            FlatScan { title_words: acc.title_words.push(w), ..acc }
        };
        flat_scan(ws, i + 1, acc2)
    }
}

pub open spec fn empty_scan() -> FlatScan {
    FlatScan { title_words: Seq::empty(), tags: Seq::empty(), due: None }
}

/// The grammar of one flat-file line:
/// `["x" WS date?] priority? date? title due? tags`.
/// Comment lines (`#`-led), blank lines and lines whose title comes out
/// empty are not tasks.
pub open spec fn flat_parse(line: Seq<char>) -> Option<FlatFields> {
    let t = trim_both(line);
    if t.len() == 0 || t[0] == '#' {
        None
    } else {
        let status = if t.len() >= 2 && t[0] == 'x' && t[1] == ' ' {
            TaskStatus::Done
        } else {
            TaskStatus::Pending
        };
        let r0 = if status is Done {
            trim_front(t.skip(2))
        } else {
            t
        };
        let completed_at = if status is Done {
            match date_prefix(r0) {
                Some(p) => Some(p.0),
                None => None,
            }
        } else {
            None
        };
        let r1 = match date_prefix(r0) {
            Some(p) => if status is Done {
                p.1
            } else {
                r0
            },
            None => r0,
        };
        let prio4 = prio_token(r1.take(4));
        let priority = if r1.len() >= 4 && prio4 is Some {
            prio4->0
        } else {
            Priority::Unset
        };
        let r2 = if r1.len() >= 4 && prio4 is Some {
            trim_front(r1.skip(4))
        } else {
            r1
        };
        let created_at = match date_prefix(r2) {
            Some(p) => Some(p.0),
            None => None,
        };
        let r3 = match date_prefix(r2) {
            Some(p) => p.1,
            None => r2,
        };
        let scan = flat_scan(words_of(r3), 0, empty_scan());
        if scan.title_words.len() == 0 {
            None
        } else {
            Some(
                FlatFields {
                    status,
                    priority,
                    completed_at,
                    created_at,
                    title: join_with(scan.title_words, seq![' ']),
                    tags: scan.tags,
                    due: scan.due,
                },
            )
        }
    }
}

/// The identifier of the flat-file task on line `n`: `local:<n>`.
pub open spec fn local_id_seq(n: int) -> Seq<char> {
    "local:"@ + dec_chars(n)
}

/// How a flat-file `Task` relates to the parsed fields of its line.
pub open spec fn is_flat_task(t: Task, f: FlatFields, path: Seq<char>, n: int) -> bool {
    &&& t.id@ == local_id_seq(n)
    &&& t.title@ == f.title
    &&& t.status == f.status
    &&& t.priority == f.priority
    &&& t.due == f.due
    &&& t.tags.deep_view() == f.tags
    &&& t.source == BackendSource::LocalFile
    &&& (t.source_line matches Some(l) && l == n)
    &&& (t.source_path matches Some(p) && p@ == path)
    &&& t.created_at == f.created_at
    &&& t.completed_at == f.completed_at
}

/// Greedily takes a date at the front, as `date_prefix` describes.
fn take_date_prefix(v: &[char]) -> (r: Option<(Date, Vec<char>)>)
    ensures
        r is Some <==> date_prefix(v@) is Some,
        r matches Some(p) ==> date_prefix(v@) matches Some(q) && p.0 == q.0 && p.1@ == q.1,
{
    let t = trim_front_vec(v);
    if t.len() >= 10 {
        let tok = subvec(t.as_slice(), 0, 10);
        proof {
            assert(tok@ =~= t@.take(10));
        }
        match parse_iso_date(tok.as_slice()) {
            Some(d) => {
                let tail = subvec(t.as_slice(), 10, t.len());
                proof {
                    assert(tail@ =~= t@.skip(10));
                }
                let rest = trim_front_vec(tail.as_slice());
                Some((d, rest))
            },
            None => None,
        }
    } else {
        None
    }
}

/// Configuration of the flat-file backend: the absolute path of its file.
pub struct LocalFileConfig {
    pub path: String,
}

/// The single-file backend; its codec addresses tasks by line number.
pub struct LocalFileBackend {
    pub config: LocalFileConfig,
}

impl LocalFileBackend {
    pub fn new(config: LocalFileConfig) -> (r: Self)
        ensures
            r.config.path == config.path,
    {
        LocalFileBackend { config }
    }

    /// Parses one line of the file; `line_num` is 1-indexed.
    pub fn parse_line(&self, line: &str, line_num: usize) -> (r: Option<Task>)
        ensures
            r is Some <==> flat_parse(line@) is Some,
            r matches Some(t) ==> flat_parse(line@) matches Some(f) && is_flat_task(
                t,
                f,
                self.config.path@,
                line_num as int,
            ),
    {
        let cs = str_chars(line);
        let t = trim_vec(cs.as_slice());
        if t.len() == 0 || t[0] == '#' {
            return None;
        }
        let done = t.len() >= 2 && t[0] == 'x' && t[1] == ' ';
        let status = if done {
            TaskStatus::Done
        } else {
            TaskStatus::Pending
        };
        let r0: Vec<char> = if done {
            let sub = subvec(t.as_slice(), 2, t.len());
            proof {
                assert(sub@ =~= t@.skip(2));
            }
            trim_front_vec(sub.as_slice())
        } else {
            t
        };
        let mut completed_at: Option<Date> = None;
        let r1: Vec<char> = match take_date_prefix(r0.as_slice()) {
            Some(p) => {
                if done {
                    completed_at = Some(p.0);
                    p.1
                } else {
                    r0
                }
            },
            None => r0,
        };
        let mut priority = Priority::Unset;
        let r2: Vec<char> = if r1.len() >= 4 && r1[0] == '(' && r1[1] == 'p' && r1[3] == ')' && (
        r1[2] == '1' || r1[2] == '2' || r1[2] == '3') {
            priority = if r1[2] == '1' {
                Priority::High
            } else if r1[2] == '2' {
                Priority::Medium
            } else {
                Priority::Low
            };
            proof {
                assert(r1@.take(4) =~= seq![r1@[0], r1@[1], r1@[2], r1@[3]]);
            }
            let sub = subvec(r1.as_slice(), 4, r1.len());
            proof {
                assert(sub@ =~= r1@.skip(4));
            }
            trim_front_vec(sub.as_slice())
        } else {
            proof {
                if r1@.len() >= 4 {
                    assert(r1@.take(4) =~= seq![r1@[0], r1@[1], r1@[2], r1@[3]]);
                }
            }
            r1
        };
        let mut created_at: Option<Date> = None;
        let r3: Vec<char> = match take_date_prefix(r2.as_slice()) {
            Some(p) => {
                created_at = Some(p.0);
                p.1
            },
            None => r2,
        };
        let words = split_words(r3.as_slice());
        let mut title_words: Vec<Vec<char>> = Vec::new();
        let mut tags: Vec<String> = Vec::new();
        let mut due: Option<Date> = None;
        let ghost all = deep(words@);
        let mut i: usize = 0;
        proof {
            assert(deep(title_words@) =~= Seq::<Seq<char>>::empty());
            assert(tags.deep_view() =~= Seq::<Seq<char>>::empty());
            assert(FlatScan { title_words: deep(title_words@), tags: tags.deep_view(), due }
                == empty_scan());
        }
        while i < words.len()
            invariant
                i <= words@.len(),
                all == deep(words@),
                flat_scan(all, 0, empty_scan()) == flat_scan(
                    all,
                    i as int,
                    FlatScan { title_words: deep(title_words@), tags: tags.deep_view(), due },
                ),
            decreases words@.len() - i,
        {
            let ghost st0 = FlatScan {
                title_words: deep(title_words@),
                tags: tags.deep_view(),
                due,
            };
            let w = &words[i];
            proof {
                assert(all[i as int] == words@[i as int]@);
            }
            if w.len() >= 1 && w[0] == '#' {
                let body = subvec(w.as_slice(), 1, w.len());
                proof {
                    assert(body@ =~= all[i as int].skip(1));
                }
                tags.push(chars_string(body.as_slice()));
                proof {
                    assert(tags.deep_view() =~= st0.tags.push(all[i as int].skip(1)));
                }
            } else {
                let mut handled = false;
                if w.len() >= 4 && w[0] == 'd' && w[1] == 'u' && w[2] == 'e' && w[3] == ':' {
                    let val = subvec(w.as_slice(), 4, w.len());
                    proof {
                        assert(val@ =~= all[i as int].skip(4));
                    }
                    match parse_iso_date(val.as_slice()) {
                        Some(d) => {
                            due = Some(d);
                            handled = true;
                        },
                        None => {},
                    }
                }
                proof {
                    assert(handled == (due_token(all[i as int]) is Some));
                }
                if !handled {
                    let kept = subvec(w.as_slice(), 0, w.len());
                    proof {
                        assert(kept@ =~= all[i as int]);
                    }
                    title_words.push(kept);
                    proof {
                        assert(deep(title_words@) =~= st0.title_words.push(all[i as int]));
                    }
                }
            }
            i += 1;
        }
        proof {
            assert(flat_scan(all, words@.len() as int, FlatScan {
                title_words: deep(title_words@),
                tags: tags.deep_view(),
                due,
            }) == FlatScan { title_words: deep(title_words@), tags: tags.deep_view(), due });
        }
        if title_words.len() == 0 {
            return None;
        }
        let sep: Vec<char> = vec![' '];
        proof {
            assert(sep@ =~= seq![' ']);
        }
        let title_cs = crate::text::join_chars(&title_words, sep.as_slice());
        let title = chars_string(title_cs.as_slice());
        let mut idc = str_chars("local:");
        push_decimal(&mut idc, line_num);
        let id = chars_string(idc.as_slice());
        let path = self.config.path.clone();
        Some(
            Task {
                id,
                title,
                status,
                priority,
                due,
                tags,
                source: BackendSource::LocalFile,
                source_line: Some(line_num),
                source_path: Some(path),
                created_at,
                completed_at,
            },
        )
    }
}

/// The priority token emitted for `p`, if any.
pub open spec fn prio_part(p: Priority) -> Seq<Seq<char>> {
    match p {
        Priority::Unset => Seq::empty(),
        Priority::High => seq![seq!['(', 'p', '1', ')']],
        Priority::Medium => seq![seq!['(', 'p', '2', ')']],
        Priority::Low => seq![seq!['(', 'p', '3', ')']],
    }
}

/// The parts of a canonical flat-file line, in canonical order: status
/// prefix with completion date, priority, creation date, title, tags, due.
/// `completed` is the date written after `x` when the task is done.
pub open spec fn flat_parts(
    status: TaskStatus,
    completed: Date,
    priority: Priority,
    created: Option<Date>,
    title: Seq<char>,
    tags: Seq<Seq<char>>,
    due: Option<Date>,
) -> Seq<Seq<char>> {
    (if status is Done {
        seq![seq!['x'], format_iso(completed)]
    } else {
        Seq::empty()
    }) + prio_part(priority) + (match created {
        Some(c) => seq![format_iso(c)],
        None => Seq::empty(),
    }) + seq![title] + tags.map_values(|t: Seq<char>| seq!['#'] + t) + (match due {
        Some(d) => seq![seq!['d', 'u', 'e', ':'] + format_iso(d)],
        None => Seq::empty(),
    })
}

/// A canonical flat-file line: the parts joined with single spaces.
pub open spec fn flat_format(
    status: TaskStatus,
    completed: Date,
    priority: Priority,
    created: Option<Date>,
    title: Seq<char>,
    tags: Seq<Seq<char>>,
    due: Option<Date>,
) -> Seq<char> {
    join_with(
        flat_parts(status, completed, priority, created, title, tags, due),
        seq![' '],
    )
}

/// Emits a canonical flat-file line for the given fields.
pub fn format_flat_line(
    status: TaskStatus,
    completed: &Date,
    priority: Priority,
    created: &Option<Date>,
    title: &String,
    tags: &Vec<String>,
    due: &Option<Date>,
) -> (r: Vec<char>)
    requires
        completed.valid(),
        created matches Some(c) ==> c.valid(),
        due matches Some(d) ==> d.valid(),
    ensures
        r@ == flat_format(
            status,
            *completed,
            priority,
            *created,
            title@,
            tags.deep_view(),
            *due,
        ),
{
    let ghost seg_status: Seq<Seq<char>> = if status is Done {
        seq![seq!['x'], format_iso(*completed)]
    } else {
        Seq::empty()
    };
    let ghost seg_created: Seq<Seq<char>> = match *created {
        Some(c) => seq![format_iso(c)],
        None => Seq::empty(),
    };
    let ghost seg_due: Seq<Seq<char>> = match *due {
        Some(d) => seq![seq!['d', 'u', 'e', ':'] + format_iso(d)],
        None => Seq::empty(),
    };
    let mut parts: Vec<Vec<char>> = Vec::new();
    if matches!(status, TaskStatus::Done) {
        let x: Vec<char> = vec!['x'];
        proof {
            assert(x@ =~= seq!['x']);
        }
        parts.push(x);
        let mut dc: Vec<char> = Vec::new();
        push_iso_date(&mut dc, completed);
        parts.push(dc);
    }
    proof {
        assert(deep(parts@) =~= seg_status);
    }
    match priority {
        Priority::Unset => {},
        Priority::High => {
            let p = str_chars("(p1)");
            proof {
                reveal_strlit("(p1)");
                assert(p@ =~= seq!['(', 'p', '1', ')']);
            }
            parts.push(p);
        },
        Priority::Medium => {
            let p = str_chars("(p2)");
            proof {
                reveal_strlit("(p2)");
                assert(p@ =~= seq!['(', 'p', '2', ')']);
            }
            parts.push(p);
        },
        Priority::Low => {
            let p = str_chars("(p3)");
            proof {
                reveal_strlit("(p3)");
                assert(p@ =~= seq!['(', 'p', '3', ')']);
            }
            parts.push(p);
        },
    }
    proof {
        assert(deep(parts@) =~= seg_status + prio_part(priority));
    }
    match created {
        Some(c) => {
            let mut dc: Vec<char> = Vec::new();
            push_iso_date(&mut dc, c);
            parts.push(dc);
        },
        None => {},
    }
    proof {
        assert(deep(parts@) =~= seg_status + prio_part(priority) + seg_created);
    }
    parts.push(str_chars(title.as_str()));
    let mut i: usize = 0;
    let ghost base = deep(parts@);
    proof {
        assert(base =~= seg_status + prio_part(priority) + seg_created + seq![title@]);
    }
    while i < tags.len()
        invariant
            i <= tags@.len(),
            deep(parts@) == base + tags@.take(i as int).map_values(|t: String| seq!['#'] + t@),
        decreases tags@.len() - i,
    {
        let mut tc: Vec<char> = vec!['#'];
        proof {
            assert(tc@ =~= seq!['#']);
        }
        let ghost parts0 = deep(parts@);
        let body = str_chars(tags[i].as_str());
        crate::text::push_all(&mut tc, body.as_slice());
        parts.push(tc);
        proof {
            assert(deep(parts@) =~= parts0.push(seq!['#'] + tags@[i as int]@));
            assert(tags@.take(i + 1).map_values(|t: String| seq!['#'] + t@) =~= tags@.take(
                i as int,
            ).map_values(|t: String| seq!['#'] + t@).push(seq!['#'] + tags@[i as int]@));
            assert(deep(parts@) =~= base + tags@.take(i + 1).map_values(
                |t: String| seq!['#'] + t@,
            ));
        }
        i += 1;
    }
    let ghost with_tags = deep(parts@);
    match due {
        Some(d) => {
            let mut dc = str_chars("due:");
            proof {
                reveal_strlit("due:");
                assert(dc@ =~= seq!['d', 'u', 'e', ':']);
            }
            push_iso_date(&mut dc, d);
            parts.push(dc);
        },
        None => {},
    }
    proof {
        assert(deep(parts@) =~= with_tags + seg_due);
    }
    let sep: Vec<char> = vec![' '];
    proof {
        assert(sep@ =~= seq![' ']);
        assert(tags@.take(tags@.len() as int) =~= tags@);
        assert(tags@.map_values(|t: String| seq!['#'] + t@) =~= tags.deep_view().map_values(
            |t: Seq<char>| seq!['#'] + t,
        ));
        assert(deep(parts@) =~= flat_parts(
            status,
            *completed,
            priority,
            *created,
            title@,
            tags.deep_view(),
            *due,
        ));
    }
    crate::text::join_chars(&parts, sep.as_slice())
}

/// The line number encoded in a `local:<digits>` identifier, unbounded.
pub open spec fn local_id_value(id: Seq<char>) -> Option<int> {
    if id.len() > 6 && id[0] == 'l' && id[1] == 'o' && id[2] == 'c' && id[3] == 'a' && id[4] == 'l'
        && id[5] == ':' && all_digits(id.skip(6)) {
        Some(dec_val(id.skip(6)))
    } else {
        None
    }
}

/// The message of the malformed-identifier error.
pub open spec fn bad_id_msg(id: Seq<char>) -> Seq<char> {
    "Invalid task ID: "@ + id
}

/// The message of the out-of-range-line error.
pub open spec fn line_not_found_msg(n: int) -> Seq<char> {
    "Line "@ + dec_chars(n) + " not found"@
}

/// The message of the unparsable-line error.
pub open spec fn bad_line_msg(n: int) -> Seq<char> {
    "Could not parse line "@ + dec_chars(n)
}

/// Decodes a `local:<line>` identifier.
pub fn parse_local_id(id: &str) -> (r: Result<usize, TasukiError>)
    ensures
        r is Ok <==> (local_id_value(id@) matches Some(n) && n <= usize::MAX),
        r matches Ok(n) ==> local_id_value(id@) == Some(n as int),
        r matches Err(e) ==> e matches TasukiError::Parse(m) && m@ == bad_id_msg(id@),
{
    let cs = str_chars(id);
    let ok_prefix = cs.len() > 6 && {
        let c0 = cs[0];
        let c1 = cs[1];
        let c2 = cs[2];
        let c3 = cs[3];
        let c4 = cs[4];
        let c5 = cs[5];
        c0 == 'l' && c1 == 'o' && c2 == 'c' && c3 == 'a' && c4 == 'l' && c5 == ':'
    };
    if ok_prefix {
        let digits = subvec(cs.as_slice(), 6, cs.len());
        proof {
            assert(digits@ =~= id@.skip(6));
        }
        match parse_decimal(digits.as_slice()) {
            Some(n) => {
                return Ok(n);
            },
            None => {},
        }
    }
    let mut m = str_chars("Invalid task ID: ");
    push_all(&mut m, cs.as_slice());
    Err(TasukiError::Parse(chars_string(m.as_slice())))
}

/// Fields after applying a partial update: absent fields keep the parsed
/// value; the completion and creation dates are never updated.
pub open spec fn merged_fields(f: FlatFields, u: TaskUpdate) -> FlatFields {
    FlatFields {
        status: match u.status {
            Some(s) => s,
            None => f.status,
        },
        priority: match u.priority {
            Some(p) => p,
            None => f.priority,
        },
        title: match u.title {
            Some(t) => t@,
            None => f.title,
        },
        tags: match u.tags {
            Some(ts) => ts.deep_view(),
            None => f.tags,
        },
        due: match u.due {
            Some(d) => d,
            None => f.due,
        },
        completed_at: f.completed_at,
        created_at: f.created_at,
    }
}

/// The canonical line an update rewrites: merged fields in canonical
/// order; a done task without a recorded completion date gets `today`.
pub open spec fn flat_updated_line(f: FlatFields, u: TaskUpdate, today: Date) -> Seq<char> {
    let m = merged_fields(f, u);
    flat_format(
        m.status,
        match m.completed_at {
            Some(c) => c,
            None => today,
        },
        m.priority,
        m.created_at,
        m.title,
        m.tags,
        m.due,
    )
}

/// All dates produced by the flat parser are valid calendar dates.
pub proof fn lemma_flat_scan_due_valid(ws: Seq<Seq<char>>, i: int, acc: FlatScan)
    requires
        acc.due matches Some(d) ==> d.valid(),
    ensures
        flat_scan(ws, i, acc).due matches Some(d) ==> d.valid(),
    decreases ws.len() - i,
{
    if 0 <= i < ws.len() {
        let w = ws[i];
        let acc2 = if w.len() >= 1 && w[0] == '#' {
            FlatScan { tags: acc.tags.push(w.skip(1)), ..acc }
        } else if due_token(w) is Some {
            FlatScan { due: due_token(w), ..acc }
        } else {
            FlatScan { title_words: acc.title_words.push(w), ..acc }
        };
        lemma_flat_scan_due_valid(ws, i + 1, acc2);
    }
}

pub proof fn lemma_flat_parse_dates_valid(line: Seq<char>)
    ensures
        flat_parse(line) matches Some(f) ==> {
            &&& (f.completed_at matches Some(d) ==> d.valid())
            &&& (f.created_at matches Some(d) ==> d.valid())
            &&& (f.due matches Some(d) ==> d.valid())
        },
{
    if flat_parse(line) is Some {
        let t = trim_both(line);
        let status = if t.len() >= 2 && t[0] == 'x' && t[1] == ' ' {
            TaskStatus::Done
        } else {
            TaskStatus::Pending
        };
        let r0 = if status is Done {
            trim_front(t.skip(2))
        } else {
            t
        };
        let r1 = match date_prefix(r0) {
            Some(p) => if status is Done {
                p.1
            } else {
                r0
            },
            None => r0,
        };
        let prio4 = prio_token(r1.take(4));
        let r2 = if r1.len() >= 4 && prio4 is Some {
            trim_front(r1.skip(4))
        } else {
            r1
        };
        let r3 = match date_prefix(r2) {
            Some(p) => p.1,
            None => r2,
        };
        lemma_flat_scan_due_valid(words_of(r3), 0, empty_scan());
    }
}

/// Which tasks a flat-file fetch keeps.
pub open spec fn flat_keep(f: FlatFields, flt: TaskFilter) -> bool {
    &&& match flt.status {
        Some(s) => f.status == s,
        None => true,
    }
    &&& match flt.due_before {
        Some(b) => f.due matches Some(d) && d.spec_le(b),
        None => true,
    }
    &&& match flt.due_after {
        Some(a) => f.due matches Some(d) && a.spec_le(d),
        None => true,
    }
    &&& match flt.search {
        Some(s) => find_from(lower_of(f.title), lower_of(s@), 0) is Some,
        None => true,
    }
}

/// The parsed, filter-passing lines, with their 1-indexed line numbers,
/// `i0` the number of the first line of `ls`.
pub open spec fn flat_selected(ls: Seq<Seq<char>>, i0: int, flt: TaskFilter) -> Seq<
    (int, FlatFields),
>
    decreases ls.len(),
{
    if ls.len() == 0 {
        Seq::empty()
    } else {
        (match flat_parse(ls[0]) {
            Some(f) => if flat_keep(f, flt) {
                seq![(i0, f)]
            } else {
                Seq::empty()
            },
            None => Seq::empty(),
        }) + flat_selected(ls.drop_first(), i0 + 1, flt)
    }
}

pub proof fn lemma_flat_selected_push(ls: Seq<Seq<char>>, i0: int, flt: TaskFilter, l: Seq<char>)
    ensures
        flat_selected(ls.push(l), i0, flt) == flat_selected(ls, i0, flt) + (match flat_parse(l) {
            Some(f) => if flat_keep(f, flt) {
                seq![(i0 + ls.len(), f)]
            } else {
                Seq::<(int, FlatFields)>::empty()
            },
            None => Seq::<(int, FlatFields)>::empty(),
        }),
    decreases ls.len(),
{
    let tailseq: Seq<(int, FlatFields)> = match flat_parse(l) {
        Some(f) => if flat_keep(f, flt) {
            seq![(i0 + ls.len(), f)]
        } else {
            Seq::empty()
        },
        None => Seq::empty(),
    };
    if ls.len() == 0 {
        assert(ls.push(l)[0] == l);
        assert(ls.push(l).drop_first() =~= Seq::<Seq<char>>::empty());
        assert(flat_selected(ls, i0, flt) =~= Seq::<(int, FlatFields)>::empty());
        assert(flat_selected(ls.push(l).drop_first(), i0 + 1, flt) =~= Seq::<
            (int, FlatFields),
        >::empty());
        assert(flat_selected(ls.push(l), i0, flt) =~= flat_selected(ls, i0, flt) + tailseq);
    } else {
        assert(ls.push(l).drop_first() =~= ls.drop_first().push(l));
        lemma_flat_selected_push(ls.drop_first(), i0 + 1, flt, l);
        assert(ls.push(l)[0] == ls[0]);
        assert(flat_selected(ls.push(l), i0, flt) =~= flat_selected(ls, i0, flt) + tailseq);
    }
}

impl LocalFileBackend {
    /// Parses the file's content and returns the tasks the filter keeps,
    /// in line order.
    pub fn fetch_from_content(&self, content: &str, filter: &TaskFilter) -> (r: Vec<Task>)
        ensures
            ({
                let sel = flat_selected(lines_of(content@), 1, *filter);
                &&& r@.len() == sel.len()
                &&& forall|k: int|
                    0 <= k < sel.len() ==> is_flat_task(
                        #[trigger] r@[k],
                        sel[k].1,
                        self.config.path@,
                        sel[k].0,
                    )
            }),
    {
        let ls = crate::mutate::split_content(content);
        let ghost lines = lines_of(content@);
        let mut out: Vec<Task> = Vec::new();
        let mut i: usize = 0;
        proof {
            assert(lines.take(0) =~= Seq::<Seq<char>>::empty());
        }
        while i < ls.len()
            invariant
                i <= ls@.len(),
                deep(ls@) == lines,
                ({
                    let sel = flat_selected(lines.take(i as int), 1, *filter);
                    &&& out@.len() == sel.len()
                    &&& forall|k: int|
                        0 <= k < sel.len() ==> is_flat_task(
                            #[trigger] out@[k],
                            sel[k].1,
                            self.config.path@,
                            sel[k].0,
                        )
                }),
            decreases ls@.len() - i,
        {
            let line_s = chars_string(ls[i].as_slice());
            proof {
                assert(line_s@ == lines[i as int]);
            }
            match self.parse_line(line_s.as_str(), i + 1) {
                Some(t) => {
                    if self.task_passes(&t, filter) {
                        out.push(t);
                    }
                },
                None => {},
            }
            proof {
                assert(lines.take(i + 1) =~= lines.take(i as int).push(lines[i as int]));
                lemma_flat_selected_push(lines.take(i as int), 1, *filter, lines[i as int]);
            }
            i += 1;
        }
        proof {
            assert(lines.take(lines.len() as int) =~= lines);
        }
        out
    }

    /// Whether a task passes the fetch filter.
    fn task_passes(&self, t: &Task, filter: &TaskFilter) -> (r: bool)
        ensures
            ({
                let f = FlatFields {
                    status: t.status,
                    priority: t.priority,
                    completed_at: t.completed_at,
                    created_at: t.created_at,
                    title: t.title@,
                    tags: t.tags.deep_view(),
                    due: t.due,
                };
                r == flat_keep(f, *filter)
            }),
    {
        let status_ok = match &filter.status {
            Some(s) => matches!((t.status, s), (TaskStatus::Pending, TaskStatus::Pending) | (
            TaskStatus::Done,
            TaskStatus::Done,
            )),
            None => true,
        };
        let before_ok = match &filter.due_before {
            Some(b) => match &t.due {
                Some(d) => d.le(b),
                None => false,
            },
            None => true,
        };
        let after_ok = match &filter.due_after {
            Some(a) => match &t.due {
                Some(d) => a.le(d),
                None => false,
            },
            None => true,
        };
        let search_ok = match &filter.search {
            Some(s) => {
                let tl = lowercase(t.title.as_str());
                let sl = lowercase(s.as_str());
                let tc = str_chars(tl.as_str());
                let sc = str_chars(sl.as_str());
                contains_sub(tc.as_slice(), sc.as_slice())
            },
            None => true,
        };
        status_ok && before_ok && after_ok && search_ok
    }

    /// Applies a partial update to the task addressed by `id`, rewriting
    /// only that line into canonical field order. Returns the new file
    /// content and the updated record.
    pub fn apply_update(
        &self,
        content: &str,
        id: &str,
        update: &TaskUpdate,
        today: Date,
    ) -> (r: Result<(String, Task), TasukiError>)
        requires
            today.valid(),
            update.due matches Some(Some(d)) ==> d.valid(),
        ensures
            r is Ok <==> (local_id_value(id@) matches Some(n) && n <= usize::MAX && 1 <= n
                <= lines_of(content@).len() && flat_parse(lines_of(content@)[n - 1]) is Some),
            r matches Ok((s, t)) ==> (local_id_value(id@) matches Some(n) && flat_parse(
                lines_of(content@)[n - 1],
            ) matches Some(f) && {
                &&& s@ == join_with(
                    lines_of(content@).update(n - 1, flat_updated_line(f, *update, today)),
                    seq!['\n'],
                ) + seq!['\n']
                &&& is_flat_task(t, merged_fields(f, *update), self.config.path@, n)
            }),
            r matches Err(e) ==> e matches TasukiError::Parse(m) && {
                if !(local_id_value(id@) matches Some(n) && n <= usize::MAX) {
                    m@ == bad_id_msg(id@)
                } else {
                    let n = local_id_value(id@)->0;
                    if !(1 <= n <= lines_of(content@).len()) {
                        m@ == line_not_found_msg(n)
                    } else {
                        m@ == bad_line_msg(n)
                    }
                }
            },
    {
        let n = match parse_local_id(id) {
            Ok(n) => n,
            Err(e) => {
                return Err(e);
            },
        };
        let ls = crate::mutate::split_content(content);
        if n == 0 || n > ls.len() {
            let mut m = str_chars("Line ");
            push_decimal(&mut m, n);
            let tail = str_chars(" not found");
            push_all(&mut m, tail.as_slice());
            return Err(TasukiError::Parse(chars_string(m.as_slice())));
        }
        let line_s = chars_string(ls[n - 1].as_slice());
        proof {
            assert(line_s@ == lines_of(content@)[n - 1]);
        }
        let task = match self.parse_line(line_s.as_str(), n) {
            Some(t) => t,
            None => {
                let mut m = str_chars("Could not parse line ");
                push_decimal(&mut m, n);
                return Err(TasukiError::Parse(chars_string(m.as_slice())));
            },
        };
        proof {
            lemma_flat_parse_dates_valid(line_s@);
        }
        let Task {
            id: tid,
            title: ptitle,
            status: pstatus,
            priority: ppriority,
            due: pdue,
            tags: ptags,
            created_at,
            completed_at,
            ..
        } = task;
        let new_title: String = match &update.title {
            Some(t) => t.clone(),
            None => ptitle,
        };
        let new_status = match update.status {
            Some(s) => s,
            None => pstatus,
        };
        let new_priority = match update.priority {
            Some(p) => p,
            None => ppriority,
        };
        let new_due = match update.due {
            Some(d) => d,
            None => pdue,
        };
        let new_tags: Vec<String> = match &update.tags {
            Some(ts) => crate::text::clone_strings(ts),
            None => ptags,
        };
        let completed: Date = match completed_at {
            Some(c) => c,
            None => today,
        };
        let new_line = format_flat_line(
            new_status,
            &completed,
            new_priority,
            &created_at,
            &new_title,
            &new_tags,
            &new_due,
        );
        let mut ls2 = ls;
        ls2.set(n - 1, new_line);
        proof {
            assert(deep(ls2@) =~= lines_of(content@).update(
                n - 1,
                flat_updated_line(
                    flat_parse(lines_of(content@)[n - 1])->0,
                    *update,
                    today,
                ),
            ));
        }
        let sep: Vec<char> = vec!['\n'];
        proof {
            assert(sep@ =~= seq!['\n']);
        }
        let mut out = crate::text::join_chars(&ls2, sep.as_slice());
        out.push('\n');
        let new_content = chars_string(out.as_slice());
        let t = Task {
            id: tid,
            title: new_title,
            status: new_status,
            priority: new_priority,
            due: new_due,
            tags: new_tags,
            source: BackendSource::LocalFile,
            source_line: Some(n),
            source_path: Some(self.config.path.clone()),
            created_at,
            completed_at,
        };
        Ok((new_content, t))
    }

    /// Marks the addressed task done, rewriting its line canonically.
    pub fn complete_in_content(&self, content: &str, id: &str, today: Date) -> (r: Result<
        (String, Task),
        TasukiError,
    >)
        requires
            today.valid(),
        ensures
            r is Ok <==> (local_id_value(id@) matches Some(n) && n <= usize::MAX && 1 <= n
                <= lines_of(content@).len() && flat_parse(lines_of(content@)[n - 1]) is Some),
            r matches Ok((s, t)) ==> (local_id_value(id@) matches Some(n) && flat_parse(
                lines_of(content@)[n - 1],
            ) matches Some(f) && {
                &&& s@ == join_with(
                    lines_of(content@).update(
                        n - 1,
                        flat_updated_line(f, status_update(TaskStatus::Done), today),
                    ),
                    seq!['\n'],
                ) + seq!['\n']
                &&& t.status == TaskStatus::Done
            }),
            r matches Err(e) ==> e matches TasukiError::Parse(m) && {
                if !(local_id_value(id@) matches Some(n) && n <= usize::MAX) {
                    m@ == bad_id_msg(id@)
                } else {
                    let n = local_id_value(id@)->0;
                    if !(1 <= n <= lines_of(content@).len()) {
                        m@ == line_not_found_msg(n)
                    } else {
                        m@ == bad_line_msg(n)
                    }
                }
            },
    {
        let update = TaskUpdate {
            title: None,
            status: Some(TaskStatus::Done),
            priority: None,
            due: None,
            tags: None,
        };
        proof {
            assert(update == status_update(TaskStatus::Done));
        }
        self.apply_update(content, id, &update, today)
    }

    /// Marks the addressed task pending again.
    pub fn uncomplete_in_content(&self, content: &str, id: &str, today: Date) -> (r: Result<
        (String, Task),
        TasukiError,
    >)
        requires
            today.valid(),
        ensures
            r is Ok <==> (local_id_value(id@) matches Some(n) && n <= usize::MAX && 1 <= n
                <= lines_of(content@).len() && flat_parse(lines_of(content@)[n - 1]) is Some),
            r matches Ok((s, t)) ==> (local_id_value(id@) matches Some(n) && flat_parse(
                lines_of(content@)[n - 1],
            ) matches Some(f) && {
                &&& s@ == join_with(
                    lines_of(content@).update(
                        n - 1,
                        flat_updated_line(f, status_update(TaskStatus::Pending), today),
                    ),
                    seq!['\n'],
                ) + seq!['\n']
                &&& t.status == TaskStatus::Pending
            }),
            r matches Err(e) ==> e matches TasukiError::Parse(m) && {
                if !(local_id_value(id@) matches Some(n) && n <= usize::MAX) {
                    m@ == bad_id_msg(id@)
                } else {
                    let n = local_id_value(id@)->0;
                    if !(1 <= n <= lines_of(content@).len()) {
                        m@ == line_not_found_msg(n)
                    } else {
                        m@ == bad_line_msg(n)
                    }
                }
            },
    {
        let update = TaskUpdate {
            title: None,
            status: Some(TaskStatus::Pending),
            priority: None,
            due: None,
            tags: None,
        };
        proof {
            assert(update == status_update(TaskStatus::Pending));
        }
        self.apply_update(content, id, &update, today)
    }

    /// Removes the addressed physical line from the file content.
    pub fn delete_from_content(&self, content: &str, id: &str) -> (r: Result<String, TasukiError>)
        ensures
            r is Ok <==> (local_id_value(id@) matches Some(n) && n <= usize::MAX && 1 <= n
                <= lines_of(content@).len()),
            r matches Ok(s) ==> (local_id_value(id@) matches Some(n) && s@ == join_with(
                lines_of(content@).remove(n - 1),
                seq!['\n'],
            ) + seq!['\n']),
            r matches Err(e) ==> e matches TasukiError::Parse(m) && {
                if !(local_id_value(id@) matches Some(n) && n <= usize::MAX) {
                    m@ == bad_id_msg(id@)
                } else {
                    m@ == line_not_found_msg(local_id_value(id@)->0)
                }
            },
    {
        let n = match parse_local_id(id) {
            Ok(n) => n,
            Err(e) => {
                return Err(e);
            },
        };
        let ls = crate::mutate::split_content(content);
        if n == 0 || n > ls.len() {
            let mut m = str_chars("Line ");
            push_decimal(&mut m, n);
            let tail = str_chars(" not found");
            push_all(&mut m, tail.as_slice());
            return Err(TasukiError::Parse(chars_string(m.as_slice())));
        }
        let mut ls2 = ls;
        ls2.remove(n - 1);
        proof {
            assert(deep(ls2@) =~= lines_of(content@).remove(n - 1));
        }
        let sep: Vec<char> = vec!['\n'];
        proof {
            assert(sep@ =~= seq!['\n']);
        }
        let mut out = crate::text::join_chars(&ls2, sep.as_slice());
        out.push('\n');
        Ok(chars_string(out.as_slice()))
    }

    /// Appends one canonical line for the new task; the new record's line
    /// number is one past the current line count.
    pub fn append_new_task(&self, content: &str, task: &NewTask, today: Date) -> (r: (
        String,
        Task,
    ))
        requires
            today.valid(),
            task.due matches Some(d) ==> d.valid(),
            content@.len() < usize::MAX,
        ensures
            r.0@ == content@ + flat_format(
                TaskStatus::Pending,
                today,
                task.priority,
                Some(today),
                task.title@,
                task.tags.deep_view(),
                task.due,
            ) + seq!['\n'],
            ({
                let n = lines_of(content@).len() + 1;
                let t = r.1;
                &&& t.id@ == local_id_seq(n as int)
                &&& t.title@ == task.title@
                &&& t.status == TaskStatus::Pending
                &&& t.priority == task.priority
                &&& t.due == task.due
                &&& t.tags.deep_view() == task.tags.deep_view()
                &&& t.source == BackendSource::LocalFile
                &&& (t.source_line matches Some(l) && l == n)
                &&& (t.source_path matches Some(p) && p@ == self.config.path@)
                &&& t.created_at == Some(today)
                &&& t.completed_at is None
            }),
    {
        let ls = crate::mutate::split_content(content);
        proof {
            lemma_lines_count(content@, Seq::empty());
        }
        let n = ls.len() + 1;
        let line = format_flat_line(
            TaskStatus::Pending,
            &today,
            task.priority,
            &Some(today),
            &task.title,
            &task.tags,
            &task.due,
        );
        let mut out = str_chars(content);
        push_all(&mut out, line.as_slice());
        out.push('\n');
        let new_content = chars_string(out.as_slice());
        let mut idc = str_chars("local:");
        push_decimal(&mut idc, n);
        let id = chars_string(idc.as_slice());
        let t = Task {
            id,
            title: task.title.clone(),
            status: TaskStatus::Pending,
            priority: task.priority,
            due: task.due,
            tags: crate::text::clone_strings(&task.tags),
            source: BackendSource::LocalFile,
            source_line: Some(n),
            source_path: Some(self.config.path.clone()),
            created_at: Some(today),
            completed_at: None,
        };
        proof {
            assert(out@ =~= content@ + line@ + seq!['\n']);
        }
        (new_content, t)
    }
}

/// The update that only sets the status.
pub open spec fn status_update(s: TaskStatus) -> TaskUpdate {
    TaskUpdate { title: None, status: Some(s), priority: None, due: None, tags: None }
}

/// A word the flat scanner treats as title text: non-empty, free of
/// whitespace, not a tag, not a valid `due:` token.
pub open spec fn flat_title_word(w: Seq<char>) -> bool {
    &&& crate::text::plain_word(w)
    &&& w[0] != '#'
    &&& due_token(w) is None
}

/// Scanning a run of title words appends exactly those words.
proof fn lemma_scan_titles_seg(ws: Seq<Seq<char>>, i: int, j: int, acc: FlatScan)
    requires
        0 <= i <= j <= ws.len(),
        forall|k: int| i <= k < j ==> flat_title_word(#[trigger] ws[k]),
    ensures
        flat_scan(ws, i, acc) == flat_scan(
            ws,
            j,
            FlatScan { title_words: acc.title_words + ws.subrange(i, j), ..acc },
        ),
    decreases j - i,
{
    if i < j {
        let acc2 = FlatScan { title_words: acc.title_words.push(ws[i]), ..acc };
        assert(flat_scan(ws, i, acc) == flat_scan(ws, i + 1, acc2));
        lemma_scan_titles_seg(ws, i + 1, j, acc2);
        assert(acc2.title_words + ws.subrange(i + 1, j) =~= acc.title_words + ws.subrange(i, j));
    } else {
        assert(acc.title_words + ws.subrange(i, i) =~= acc.title_words);
        assert(FlatScan { title_words: acc.title_words + ws.subrange(i, j), ..acc } == acc);
    }
}

/// The tag bodies of the words from `i` on.
pub open spec fn tag_bodies(ws: Seq<Seq<char>>, i: int) -> Seq<Seq<char>>
    decreases ws.len() - i,
{
    if i < 0 || i >= ws.len() {
        Seq::empty()
    } else if ws[i].len() >= 1 && ws[i][0] == '#' {
        seq![ws[i].skip(1)] + tag_bodies(ws, i + 1)
    } else {
        tag_bodies(ws, i + 1)
    }
}

/// The last `due:` value among the words from `i` on, else `d`.
pub open spec fn last_due(ws: Seq<Seq<char>>, i: int, d: Option<Date>) -> Option<Date>
    decreases ws.len() - i,
{
    if i < 0 || i >= ws.len() {
        d
    } else if ws[i].len() >= 1 && ws[i][0] == '#' {
        last_due(ws, i + 1, d)
    } else if due_token(ws[i]) is Some {
        last_due(ws, i + 1, due_token(ws[i]))
    } else {
        last_due(ws, i + 1, d)
    }
}

/// Scanning a run of tag and `due:` words collects the tag bodies in
/// order and keeps the last due value, leaving the title untouched.
proof fn lemma_scan_tail(ws: Seq<Seq<char>>, i: int, acc: FlatScan)
    requires
        0 <= i,
        (forall|k: int|
            i <= k < ws.len() ==> ((#[trigger] ws[k]).len() >= 1 && ws[k][0] == '#') || (due_token(
                ws[k],
            ) is Some)),
    ensures
        flat_scan(ws, i, acc) == (FlatScan {
            title_words: acc.title_words,
            tags: acc.tags + tag_bodies(ws, i),
            due: last_due(ws, i, acc.due),
        }),
    decreases ws.len() - i,
{
    if i >= ws.len() {
        assert(acc.tags + tag_bodies(ws, i) =~= acc.tags);
    } else {
        let w = ws[i];
        if w.len() >= 1 && w[0] == '#' {
            let acc2 = FlatScan { tags: acc.tags.push(w.skip(1)), ..acc };
            lemma_scan_tail(ws, i + 1, acc2);
            assert(acc2.tags + tag_bodies(ws, i + 1) =~= acc.tags + tag_bodies(ws, i));
        } else {
            let acc2 = FlatScan { due: due_token(w), ..acc };
            lemma_scan_tail(ws, i + 1, acc2);
        }
    }
}

/// Tag bodies of a formatted tag run followed by non-tag words.
proof fn lemma_tag_bodies_eval(ws: Seq<Seq<char>>, i: int, ts: Seq<Seq<char>>)
    requires
        0 <= i,
        i + ts.len() <= ws.len(),
        forall|k: int| 0 <= k < ts.len() ==> ws[i + k] == seq!['#'] + #[trigger] ts[k],
        forall|k: int|
            i + ts.len() <= k < ws.len() ==> !((#[trigger] ws[k]).len() >= 1 && ws[k][0] == '#'),
    ensures
        tag_bodies(ws, i) == ts,
    decreases ws.len() - i,
{
    if ts.len() == 0 {
        if i < ws.len() {
            lemma_tag_bodies_eval(ws, i + 1, ts);
        } else {
            assert(tag_bodies(ws, i) =~= ts);
        }
    } else {
        assert(ws[i] == seq!['#'] + ts[0]);
        assert(ws[i].len() >= 1 && ws[i][0] == '#');
        assert(ws[i].skip(1) =~= ts[0]);
        let ts2 = ts.drop_first();
        assert forall|k: int| 0 <= k < ts2.len() implies ws[(i + 1) + k] == seq!['#']
            + #[trigger] ts2[k] by {
            assert(ws[i + (k + 1)] == seq!['#'] + ts[k + 1]);
        }
        lemma_tag_bodies_eval(ws, i + 1, ts2);
        assert(tag_bodies(ws, i) =~= seq![ts[0]] + ts2);
        assert(seq![ts[0]] + ts2 =~= ts);
    }
}

/// The last due value over words without valid `due:` tokens is unchanged.
proof fn lemma_last_due_skip(ws: Seq<Seq<char>>, i: int, j: int, d: Option<Date>)
    requires
        0 <= i <= j <= ws.len(),
        forall|k: int| i <= k < j ==> due_token(#[trigger] ws[k]) is None,
    ensures
        last_due(ws, i, d) == last_due(ws, j, d),
    decreases j - i,
{
    if i < j {
        lemma_last_due_skip(ws, i + 1, j, d);
    }
}

/// A canonical date rendering is a ten-character whitespace-free word of
/// digits and dashes.
pub proof fn lemma_format_iso_plain(d: Date)
    ensures
        crate::text::plain_word(format_iso(d)),
        format_iso(d).len() == 10,
        '0' <= format_iso(d)[0] <= '9',
{
    assert(forall|n: int| '0' <= #[trigger] crate::text::digit_of(n) <= '9');
    assert(forall|n: int| !crate::text::ws_char(#[trigger] crate::text::digit_of(n)));
    assert(!crate::text::ws_char('-'));
    assert forall|i: int| 0 <= i < format_iso(d).len() implies !crate::text::ws_char(
        #[trigger] format_iso(d)[i],
    ) by {
        if i == 4 || i == 7 {
            assert(format_iso(d)[i] == '-');
        }
    }
}

/// The words a formatted tag list contributes.
pub open spec fn flat_tag_words(tags: Seq<Seq<char>>) -> Seq<Seq<char>> {
    tags.map_values(|t: Seq<char>| seq!['#'] + t)
}

/// The words a formatted due date contributes.
pub open spec fn flat_due_words(due: Option<Date>) -> Seq<Seq<char>> {
    match due {
        Some(d) => seq![seq!['d', 'u', 'e', ':'] + format_iso(d)],
        None => Seq::empty(),
    }
}

/// The title, tag and due words of a canonical line, in order.
pub open spec fn flat_wall(tws: Seq<Seq<char>>, tags: Seq<Seq<char>>, due: Option<Date>) -> Seq<
    Seq<char>,
> {
    tws + flat_tag_words(tags) + flat_due_words(due)
}

/// The full word list of a canonical line.
pub open spec fn flat_all_words(
    status: TaskStatus,
    completed: Date,
    priority: Priority,
    created: Option<Date>,
    tws: Seq<Seq<char>>,
    tags: Seq<Seq<char>>,
    due: Option<Date>,
) -> Seq<Seq<char>> {
    (if status is Done {
        seq![seq!['x'], format_iso(completed)]
    } else {
        Seq::empty()
    }) + prio_part(priority) + (match created {
        Some(c) => seq![format_iso(c)],
        None => Seq::empty(),
    }) + flat_wall(tws, tags, due)
}

/// Well-formed round-trip inputs: plain title words that cannot be taken
/// for tags or `due:` tokens, and whitespace-free tags.
pub open spec fn flat_roundtrip_inputs(tws: Seq<Seq<char>>, tags: Seq<Seq<char>>) -> bool {
    &&& tws.len() >= 1
    &&& (forall|k: int| 0 <= k < tws.len() ==> flat_title_word(#[trigger] tws[k]))
    &&& (forall|k: int, i: int|
        0 <= k < tags.len() && 0 <= i < tags[k].len() ==> !crate::text::ws_char(
            #[trigger] tags[k][i],
        ))
}

/// Every word of a canonical line is non-empty and whitespace-free.
proof fn lemma_flat_words_plain(
    status: TaskStatus,
    completed: Date,
    priority: Priority,
    created: Option<Date>,
    tws: Seq<Seq<char>>,
    tags: Seq<Seq<char>>,
    due: Option<Date>,
)
    requires
        flat_roundtrip_inputs(tws, tags),
    ensures
        (forall|k: int|
            0 <= k < flat_all_words(status, completed, priority, created, tws, tags, due).len()
                ==> crate::text::plain_word(
                #[trigger] flat_all_words(status, completed, priority, created, tws, tags, due)[k],
            )),
        (forall|k: int|
            0 <= k < flat_wall(tws, tags, due).len() ==> crate::text::plain_word(
                #[trigger] flat_wall(tws, tags, due)[k],
            )),
{
    let all = flat_all_words(status, completed, priority, created, tws, tags, due);
    let wall = flat_wall(tws, tags, due);
    let tagws = flat_tag_words(tags);
    let duews = flat_due_words(due);
    if status is Done {
        lemma_format_iso_plain(completed);
    }
    if created is Some {
        lemma_format_iso_plain(created->0);
    }
    if due is Some {
        lemma_format_iso_plain(due->0);
    }
    assert(crate::text::plain_word(seq!['x']));
    assert forall|k: int| 0 <= k < wall.len() implies crate::text::plain_word(
        #[trigger] wall[k],
    ) by {
        if k < tws.len() {
            assert(wall[k] == tws[k]);
        } else if k < tws.len() + tagws.len() {
            let k3 = k - tws.len();
            assert(wall[k] == tagws[k3]);
            assert(tagws[k3] == seq!['#'] + tags[k3]);
            assert(wall[k].len() >= 1);
            assert forall|i: int| 0 <= i < wall[k].len() implies !crate::text::ws_char(
                #[trigger] wall[k][i],
            ) by {
                if i >= 1 {
                    assert(wall[k][i] == tags[k3][i - 1]);
                }
            }
        } else {
            let dw = seq!['d', 'u', 'e', ':'] + format_iso(due->0);
            assert(wall[k] == dw);
            assert forall|i: int| 0 <= i < dw.len() implies !crate::text::ws_char(
                #[trigger] dw[i],
            ) by {
                if i >= 4 {
                    assert(dw[i] == format_iso(due->0)[i - 4]);
                }
            }
        }
    }
    let spart: Seq<Seq<char>> = if status is Done {
        seq![seq!['x'], format_iso(completed)]
    } else {
        Seq::empty()
    };
    let cr: Seq<Seq<char>> = match created {
        Some(c) => seq![format_iso(c)],
        None => Seq::empty(),
    };
    let pr = prio_part(priority);
    assert forall|k: int| 0 <= k < all.len() implies crate::text::plain_word(
        #[trigger] all[k],
    ) by {
        let base = spart.len() + pr.len() + cr.len();
        if k >= base {
            assert(all[k] == wall[k - base]);
        } else if k < spart.len() {
            if k == 0 {
                assert(all[k] == seq!['x']);
            } else {
                assert(all[k] == format_iso(completed));
            }
        } else if k < spart.len() + pr.len() {
            match priority {
                Priority::Unset => {},
                Priority::High => {
                    assert(all[k] == seq!['(', 'p', '1', ')']);
                },
                Priority::Medium => {
                    assert(all[k] == seq!['(', 'p', '2', ')']);
                },
                Priority::Low => {
                    assert(all[k] == seq!['(', 'p', '3', ')']);
                },
            }
        } else {
            assert(all[k] == format_iso(created->0));
        }
    }
}

/// The canonical line is the flat join of all its words.
proof fn lemma_flat_line_join(
    status: TaskStatus,
    completed: Date,
    priority: Priority,
    created: Option<Date>,
    tws: Seq<Seq<char>>,
    tags: Seq<Seq<char>>,
    due: Option<Date>,
)
    requires
        flat_roundtrip_inputs(tws, tags),
    ensures
        flat_format(status, completed, priority, created, join_with(tws, seq![' ']), tags, due)
            == join_with(
            flat_all_words(status, completed, priority, created, tws, tags, due),
            seq![' '],
        ),
{
    let sp = seq![' '];
    let title = join_with(tws, sp);
    let tagws = flat_tag_words(tags);
    let duews = flat_due_words(due);
    let spart: Seq<Seq<char>> = if status is Done {
        seq![seq!['x'], format_iso(completed)]
    } else {
        Seq::empty()
    };
    let cr: Seq<Seq<char>> = match created {
        Some(c) => seq![format_iso(c)],
        None => Seq::empty(),
    };
    let pr = prio_part(priority);
    let parts = flat_parts(status, completed, priority, created, title, tags, due);
    let pre = spart + pr + cr;
    let suf = tagws + duews;
    let all = flat_all_words(status, completed, priority, created, tws, tags, due);
    assert(parts =~= pre + seq![title] + suf);
    assert(flat_format(status, completed, priority, created, title, tags, due) == join_with(
        parts,
        sp,
    ));
    if pre.len() == 0 && suf.len() == 0 {
        assert(parts =~= seq![title]);
        assert(join_with(seq![title], sp) == title);
        assert(all =~= tws);
    } else if pre.len() == 0 {
        assert(parts =~= seq![title] + suf);
        crate::text::lemma_join_concat(seq![title], suf, sp);
        assert(join_with(seq![title], sp) == title);
        crate::text::lemma_join_concat(tws, suf, sp);
        assert(all =~= tws + suf);
    } else if suf.len() == 0 {
        assert(parts =~= pre + seq![title]);
        crate::text::lemma_join_concat(pre, seq![title], sp);
        assert(join_with(seq![title], sp) == title);
        crate::text::lemma_join_concat(pre, tws, sp);
        assert(all =~= pre + tws);
    } else {
        assert(parts =~= pre + (seq![title] + suf));
        crate::text::lemma_join_concat(pre, seq![title] + suf, sp);
        crate::text::lemma_join_concat(seq![title], suf, sp);
        assert(join_with(seq![title], sp) == title);
        crate::text::lemma_join_concat(tws, suf, sp);
        crate::text::lemma_join_concat(pre, tws + suf, sp);
        assert(all =~= pre + (tws + suf));
    }
}

/// A greedy date at the head of a joined word list: the first word is a
/// canonical date, and the rest of the join follows.
proof fn lemma_date_consume(d: Date, after: Seq<Seq<char>>)
    requires
        d.valid(),
        after.len() > 0,
        forall|k: int| 0 <= k < after.len() ==> crate::text::plain_word(#[trigger] after[k]),
    ensures
        date_prefix(join_with(seq![format_iso(d)] + after, seq![' '])) == Some(
            (d, join_with(after, seq![' '])),
        ),
{
    let sp = seq![' '];
    let r = join_with(seq![format_iso(d)] + after, sp);
    let j2 = join_with(after, sp);
    lemma_format_iso_plain(d);
    crate::text::lemma_join_concat(seq![format_iso(d)], after, sp);
    assert(join_with(seq![format_iso(d)], sp) == format_iso(d));
    assert(r == format_iso(d) + sp + j2);
    assert forall|k: int|
        0 <= k < (seq![format_iso(d)] + after).len() implies crate::text::plain_word(
        #[trigger] (seq![format_iso(d)] + after)[k],
    ) by {
        if k >= 1 {
            assert((seq![format_iso(d)] + after)[k] == after[k - 1]);
        }
    }
    crate::text::lemma_trim_join(seq![format_iso(d)] + after);
    assert(trim_front(r) == r);
    assert(r.len() >= 10);
    assert(r.take(10) =~= format_iso(d));
    crate::date::lemma_iso_roundtrip(d);
    assert(r.skip(10) =~= sp + j2);
    assert((sp + j2)[0] == ' ');
    assert((sp + j2).drop_first() =~= j2);
    crate::text::lemma_trim_join(after);
    assert(trim_front(r.skip(10)) == j2);
}

/// No greedy date at the head: the first word cannot begin a date, so
/// nothing is consumed.
proof fn lemma_no_date_consume(aw: Seq<Seq<char>>)
    requires
        aw.len() > 0,
        forall|k: int| 0 <= k < aw.len() ==> crate::text::plain_word(#[trigger] aw[k]),
        aw[0].len() >= 10 ==> parse_iso(aw[0].take(10)) is None,
    ensures
        date_prefix(join_with(aw, seq![' '])) is None,
{
    let sp = seq![' '];
    let r = join_with(aw, sp);
    let w0 = aw[0];
    crate::text::lemma_trim_join(aw);
    assert(trim_front(r) == r);
    if r.len() >= 10 {
        if aw.len() == 1 {
            assert(r == w0);
            assert(r.take(10) =~= w0.take(10));
        } else {
            crate::text::lemma_join_concat(seq![w0], aw.drop_first(), sp);
            assert(aw =~= seq![w0] + aw.drop_first());
            assert(join_with(seq![w0], sp) == w0);
            assert(r == w0 + sp + join_with(aw.drop_first(), sp));
            if w0.len() >= 10 {
                assert(r.take(10) =~= w0.take(10));
            } else {
                let p = w0.len() as int;
                assert(r[p] == ' ');
                assert(r.take(10)[p] == ' ');
                assert(!crate::date::iso_date_shape(r.take(10))) by {
                    if p == 4 || p == 7 {
                        assert(r.take(10)[p] != '-');
                    } else {
                        assert(!crate::text::dec_digit(' '));
                    }
                }
                assert(parse_iso(r.take(10)) is None);
            }
        }
        assert(parse_iso(r.take(10)) is None);
    }
}

/// No priority token at the head: the first word cannot begin one, so
/// nothing is consumed.
proof fn lemma_no_prio_consume(aw: Seq<Seq<char>>)
    requires
        aw.len() > 0,
        forall|k: int| 0 <= k < aw.len() ==> crate::text::plain_word(#[trigger] aw[k]),
        aw[0].len() >= 4 ==> prio_token(aw[0].take(4)) is None,
    ensures
        !(join_with(aw, seq![' ']).len() >= 4 && prio_token(
            join_with(aw, seq![' ']).take(4),
        ) is Some),
{
    let sp = seq![' '];
    let r = join_with(aw, sp);
    let w0 = aw[0];
    if r.len() >= 4 {
        if aw.len() == 1 {
            assert(r == w0);
            assert(r.take(4) =~= w0.take(4));
        } else {
            crate::text::lemma_join_concat(seq![w0], aw.drop_first(), sp);
            assert(aw =~= seq![w0] + aw.drop_first());
            assert(join_with(seq![w0], sp) == w0);
            assert(r == w0 + sp + join_with(aw.drop_first(), sp));
            if w0.len() >= 4 {
                assert(r.take(4) =~= w0.take(4));
            } else {
                let p = w0.len() as int;
                assert(r[p] == ' ');
                assert(r.take(4)[p] == ' ');
                if p == 1 {
                    assert(prio_token(r.take(4)) is None);
                } else if p == 2 {
                    assert(prio_token(r.take(4)) is None);
                } else {
                    assert(prio_token(r.take(4)) is None);
                }
            }
        }
        assert(prio_token(r.take(4)) is None);
    }
}

/// A joined word list whose first word is not exactly `x` never carries
/// the `x ` completion prefix.
proof fn lemma_no_x_prefix(aw: Seq<Seq<char>>)
    requires
        aw.len() > 0,
        forall|k: int| 0 <= k < aw.len() ==> crate::text::plain_word(#[trigger] aw[k]),
        aw[0] != seq!['x'],
    ensures
        ({
            let t = join_with(aw, seq![' ']);
            !(t.len() >= 2 && t[0] == 'x' && t[1] == ' ')
        }),
{
    let sp = seq![' '];
    let t = join_with(aw, sp);
    let w0 = aw[0];
    crate::text::lemma_join_ends(aw);
    assert(t[0] == w0[0]);
    if w0[0] == 'x' {
        assert(w0.len() >= 2) by {
            if w0.len() == 1 {
                assert(w0 =~= seq!['x']);
            }
        }
        if aw.len() == 1 {
            assert(t == w0);
        } else {
            crate::text::lemma_join_concat(seq![w0], aw.drop_first(), sp);
            assert(aw =~= seq![w0] + aw.drop_first());
            assert(join_with(seq![w0], sp) == w0);
            assert(t == w0 + sp + join_with(aw.drop_first(), sp));
        }
        assert(t[1] == w0[1]);
        assert(!crate::text::ws_char(w0[1]));
    }
}

/// A priority token at the head of a joined word list is consumed.
proof fn lemma_prio_consume(pw: Seq<char>, after: Seq<Seq<char>>)
    requires
        pw.len() == 4,
        crate::text::plain_word(pw),
        after.len() > 0,
        forall|k: int| 0 <= k < after.len() ==> crate::text::plain_word(#[trigger] after[k]),
    ensures
        ({
            let r = join_with(seq![pw] + after, seq![' ']);
            &&& r.len() >= 4
            &&& r.take(4) == pw
            &&& trim_front(r.skip(4)) == join_with(after, seq![' '])
        }),
{
    let sp = seq![' '];
    let r = join_with(seq![pw] + after, sp);
    let j2 = join_with(after, sp);
    crate::text::lemma_join_concat(seq![pw], after, sp);
    assert(join_with(seq![pw], sp) == pw);
    assert(r == pw + sp + j2);
    assert(r.take(4) =~= pw);
    assert(r.skip(4) =~= sp + j2);
    assert((sp + j2)[0] == ' ');
    assert((sp + j2).drop_first() =~= j2);
    crate::text::lemma_trim_join(after);
    assert(trim_front(r.skip(4)) == j2);
}

/// The word scan of the title, tag and due words yields exactly the
/// title words, the tag bodies and the due date.
proof fn lemma_flat_scan_of_wall(tws: Seq<Seq<char>>, tags: Seq<Seq<char>>, due: Option<Date>)
    requires
        flat_roundtrip_inputs(tws, tags),
        due matches Some(d) ==> d.valid(),
    ensures
        ({
            let scan = flat_scan(flat_wall(tws, tags, due), 0, empty_scan());
            &&& scan.title_words == tws
            &&& scan.tags == tags
            &&& scan.due == due
        }),
{
    let wall = flat_wall(tws, tags, due);
    let tagws = flat_tag_words(tags);
    lemma_scan_titles_seg(wall, 0, tws.len() as int, empty_scan());
    let acc1 = FlatScan {
        title_words: empty_scan().title_words + wall.subrange(0, tws.len() as int),
        ..empty_scan()
    };
    assert(wall.subrange(0, tws.len() as int) =~= tws);
    assert(acc1.title_words =~= tws);
    assert forall|k: int|
        tws.len() <= k < wall.len() implies ((#[trigger] wall[k]).len() >= 1 && wall[k][0] == '#')
        || (due_token(wall[k]) is Some) by {
        if k < tws.len() + tagws.len() {
            assert(wall[k] == tagws[k - tws.len()]);
            assert(tagws[k - tws.len()] == seq!['#'] + tags[k - tws.len()]);
        } else {
            let dw = seq!['d', 'u', 'e', ':'] + format_iso(due->0);
            assert(wall[k] == dw);
            crate::date::lemma_iso_roundtrip(due->0);
            assert(dw.skip(4) =~= format_iso(due->0));
            assert(due_token(dw) == Some(due->0));
        }
    }
    lemma_scan_tail(wall, tws.len() as int, acc1);
    let scan = flat_scan(wall, 0, empty_scan());
    assert forall|k: int| 0 <= k < tags.len() implies wall[tws.len() + k] == seq!['#']
        + #[trigger] tags[k] by {
        assert(wall[tws.len() + k] == tagws[k]);
    }
    assert forall|k: int|
        tws.len() + tags.len() <= k < wall.len() implies !((#[trigger] wall[k]).len() >= 1
        && wall[k][0] == '#') by {
        let dw = seq!['d', 'u', 'e', ':'] + format_iso(due->0);
        assert(wall[k] == dw);
        assert(dw[0] == 'd');
    }
    lemma_tag_bodies_eval(wall, tws.len() as int, tags);
    assert(scan.tags =~= tags);
    assert forall|k: int| tws.len() <= k < tws.len() + tags.len() implies due_token(
        #[trigger] wall[k],
    ) is None by {
        assert(wall[k] == tagws[k - tws.len()]);
        assert(wall[k][0] == '#');
    }
    lemma_last_due_skip(wall, tws.len() as int, tws.len() + tags.len() as int, None);
    if due is Some {
        let dw = seq!['d', 'u', 'e', ':'] + format_iso(due->0);
        assert(wall[tws.len() + tags.len() as int] == dw);
        crate::date::lemma_iso_roundtrip(due->0);
        assert(dw.skip(4) =~= format_iso(due->0));
        assert(due_token(dw) == Some(due->0));
        assert(last_due(wall, tws.len() + tags.len() as int, None) == last_due(
            wall,
            wall.len() as int,
            Some(due->0),
        ));
        assert(scan.due == due);
    } else {
        assert(tws.len() + tags.len() == wall.len());
        assert(scan.due == due);
    }
}

/// Format-then-parse: a canonical flat-file line parses back to exactly
/// the fields it was written from — status, priority, completion and
/// creation dates, title, tags, and due date. The title is given as its
/// whitespace-separated words; title words must not look like tags or
/// valid `due:` tokens, and the first one must not look like a date, a
/// priority token or the `x` status prefix where the grammar would
/// consume one.
#[verifier::rlimit(60)]
pub proof fn lemma_flat_roundtrip(
    status: TaskStatus,
    completed: Date,
    priority: Priority,
    created: Option<Date>,
    tws: Seq<Seq<char>>,
    tags: Seq<Seq<char>>,
    due: Option<Date>,
)
    requires
        completed.valid(),
        created matches Some(c) ==> c.valid(),
        due matches Some(d) ==> d.valid(),
        flat_roundtrip_inputs(tws, tags),
        created is None ==> (tws[0].len() >= 10 ==> parse_iso(tws[0].take(10)) is None),
        (priority is Unset && created is None && tws[0].len() >= 4) ==> prio_token(
            tws[0].take(4),
        ) is None,
        (status is Pending && priority is Unset && created is None) ==> tws[0] != seq!['x'],
    ensures
        flat_parse(
            flat_format(
                status,
                completed,
                priority,
                created,
                join_with(tws, seq![' ']),
                tags,
                due,
            ),
        ) matches Some(f) && f.status == status && f.priority == priority && f.title == join_with(
            tws,
            seq![' '],
        ) && f.tags == tags && f.due == due && f.completed_at == (if status is Done {
            Some(completed)
        } else {
            None
        }) && f.created_at == created,
{
    let sp = seq![' '];
    let title = join_with(tws, sp);
    let wall = flat_wall(tws, tags, due);
    let all = flat_all_words(status, completed, priority, created, tws, tags, due);
    let cr: Seq<Seq<char>> = match created {
        Some(c) => seq![format_iso(c)],
        None => Seq::empty(),
    };
    let pr = prio_part(priority);
    let spart: Seq<Seq<char>> = if status is Done {
        seq![seq!['x'], format_iso(completed)]
    } else {
        Seq::empty()
    };
    let after_status = pr + cr + wall;
    let after_prio = cr + wall;
    lemma_flat_words_plain(status, completed, priority, created, tws, tags, due);
    lemma_flat_line_join(status, completed, priority, created, tws, tags, due);
    let line = flat_format(status, completed, priority, created, title, tags, due);
    assert(line == join_with(all, sp));
    crate::text::lemma_trim_join(all);
    let t = trim_both(line);
    assert(t == line);
    assert forall|k: int| 0 <= k < after_status.len() implies crate::text::plain_word(
        #[trigger] after_status[k],
    ) by {
        assert(after_status[k] == all[spart.len() + k]);
    }
    assert forall|k: int| 0 <= k < after_prio.len() implies crate::text::plain_word(
        #[trigger] after_prio[k],
    ) by {
        assert(after_prio[k] == all[spart.len() + pr.len() + k]);
    }
    let r1 = join_with(after_status, sp);
    let r2 = join_with(after_prio, sp);
    let r3 = join_with(wall, sp);

    // Status stage.
    if status is Done {
        let rest1 = seq![format_iso(completed)] + after_status;
        assert(all =~= seq![seq!['x']] + rest1);
        crate::text::lemma_join_concat(seq![seq!['x']], rest1, sp);
        assert(join_with(seq![seq!['x']], sp) == seq!['x']);
        let j1 = join_with(rest1, sp);
        assert(t == seq!['x'] + sp + j1);
        assert(t[0] == 'x' && t[1] == ' ' && t.len() >= 2);
        assert(t.skip(2) =~= j1);
        assert forall|k: int| 0 <= k < rest1.len() implies crate::text::plain_word(
            #[trigger] rest1[k],
        ) by {
            assert(rest1[k] == all[1 + k]);
        }
        crate::text::lemma_trim_join(rest1);
        assert(trim_front(t.skip(2)) == j1);
        lemma_date_consume(completed, after_status);
        assert(date_prefix(j1) == Some((completed, r1)));
    } else {
        assert(all == after_status);
        if priority is High || priority is Medium || priority is Low {
            assert(all[0] == pr[0]);
            assert(all[0][0] == '(');
            assert(all[0] != seq!['x']);
        } else if created is Some {
            assert(all[0] == format_iso(created->0));
            lemma_format_iso_plain(created->0);
            assert(all[0] != seq!['x']);
        } else {
            assert(all[0] == tws[0]);
        }
        lemma_no_x_prefix(all);
        assert(t == r1);
    }

    // Priority stage.
    if priority is High || priority is Medium || priority is Low {
        let pw = pr[0];
        assert(crate::text::plain_word(pw) && pw.len() == 4) by {
            match priority {
                Priority::High => {
                    assert(pw == seq!['(', 'p', '1', ')']);
                },
                Priority::Medium => {
                    assert(pw == seq!['(', 'p', '2', ')']);
                },
                Priority::Low => {
                    assert(pw == seq!['(', 'p', '3', ')']);
                },
                Priority::Unset => {},
            }
        }
        assert(after_status =~= seq![pw] + after_prio);
        lemma_prio_consume(pw, after_prio);
        assert(r1.take(4) == pw);
        assert(prio_token(pw) == Some(priority)) by {
            match priority {
                Priority::High => {
                    assert(pw == seq!['(', 'p', '1', ')']);
                },
                Priority::Medium => {
                    assert(pw == seq!['(', 'p', '2', ')']);
                },
                Priority::Low => {
                    assert(pw == seq!['(', 'p', '3', ')']);
                },
                Priority::Unset => {},
            }
        }
        assert(trim_front(r1.skip(4)) == r2);
    } else {
        assert(after_status == after_prio);
        assert(r1 == r2);
        if created is Some {
            assert(after_prio[0] == format_iso(created->0));
            lemma_format_iso_plain(created->0);
            assert(after_prio[0].len() >= 4);
            assert(after_prio[0].take(4)[0] == format_iso(created->0)[0]);
            assert('0' <= after_prio[0].take(4)[0] <= '9');
            assert(prio_token(after_prio[0].take(4)) is None);
        } else {
            assert(after_prio[0] == tws[0]);
        }
        lemma_no_prio_consume(after_prio);
    }

    // Creation-date stage.
    if created is Some {
        assert(after_prio =~= seq![format_iso(created->0)] + wall);
        lemma_date_consume(created->0, wall);
        assert(date_prefix(r2) == Some((created->0, r3)));
    } else {
        assert(after_prio == wall);
        assert(r2 == r3);
        assert(wall[0] == tws[0]);
        lemma_no_date_consume(wall);
        assert(date_prefix(r2) is None);
    }

    crate::text::lemma_words_of_join(wall);
    assert(words_of(r3) == wall);
    lemma_flat_scan_of_wall(tws, tags, due);
    let scan = flat_scan(wall, 0, empty_scan());
    assert(scan.title_words.len() >= 1);
    assert(join_with(scan.title_words, seq![' ']) == title);
}

/// Completing a flat-file task twice rewrites the same canonical line as
/// completing it once: the first rewrite records the status prefix and
/// completion date canonically, parsing that line reproduces them, and
/// the second rewrite changes nothing.
pub proof fn lemma_flat_complete_idempotent(
    status0: TaskStatus,
    completed0: Option<Date>,
    priority: Priority,
    created: Option<Date>,
    tws: Seq<Seq<char>>,
    tags: Seq<Seq<char>>,
    due: Option<Date>,
    today: Date,
)
    requires
        today.valid(),
        completed0 matches Some(c) ==> c.valid(),
        created matches Some(c) ==> c.valid(),
        due matches Some(d) ==> d.valid(),
        flat_roundtrip_inputs(tws, tags),
        created is None ==> (tws[0].len() >= 10 ==> parse_iso(tws[0].take(10)) is None),
        (priority is Unset && created is None && tws[0].len() >= 4) ==> prio_token(
            tws[0].take(4),
        ) is None,
    ensures
        ({
            let f = FlatFields {
                status: status0,
                priority,
                completed_at: completed0,
                created_at: created,
                title: join_with(tws, seq![' ']),
                tags,
                due,
            };
            let u = status_update(TaskStatus::Done);
            let l1 = flat_updated_line(f, u, today);
            flat_parse(l1) matches Some(f1) && flat_updated_line(f1, u, today) == l1
        }),
{
    let f = FlatFields {
        status: status0,
        priority,
        completed_at: completed0,
        created_at: created,
        title: join_with(tws, seq![' ']),
        tags,
        due,
    };
    let u = status_update(TaskStatus::Done);
    let resolved = match completed0 {
        Some(c) => c,
        None => today,
    };
    let l1 = flat_updated_line(f, u, today);
    assert(l1 == flat_format(
        TaskStatus::Done,
        resolved,
        priority,
        created,
        join_with(tws, seq![' ']),
        tags,
        due,
    ));
    lemma_flat_roundtrip(TaskStatus::Done, resolved, priority, created, tws, tags, due);
    let f1 = flat_parse(l1)->0;
    assert(f1.status == TaskStatus::Done);
    assert(f1.completed_at == Some(resolved));
    assert(flat_updated_line(f1, u, today) == flat_format(
        TaskStatus::Done,
        resolved,
        priority,
        created,
        join_with(tws, seq![' ']),
        tags,
        due,
    ));
}

/// A text of `n` characters has at most `n` lines.
pub proof fn lemma_lines_count(s: Seq<char>, cur: Seq<char>)
    ensures
        crate::text::lines_rec(s, cur).len() <= s.len() + (if cur.len() > 0 {
            1int
        } else {
            0int
        }),
    decreases s.len(),
{
    if s.len() > 0 {
        if s[0] == '\n' {
            lemma_lines_count(s.drop_first(), Seq::empty());
        } else {
            lemma_lines_count(s.drop_first(), cur.push(s[0]));
        }
    }
}

} // verus!
