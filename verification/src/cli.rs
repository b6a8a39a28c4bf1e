//! The decisions behind the command-line tool: choosing the Obscura binary,
//! finding a scraper by name, formatting the list, and editing the crontab.
use vstd::prelude::*;
use crate::lines::{
    lemma_join_front, lemma_lines_are_stretches, lemma_lines_concat, lemma_lines_one,
    lemma_trim_end_prefix, lines, lines_of, newline_free, strip_cr, trim_end, trim_end_spec,
};
use crate::scraper::Scraper;
use crate::str_map::StrMap;
use crate::template::{interpolate_template, render_template};
use crate::text::{
    chars_of, join, join_strings, occurs_at, push_str_chars, seq_contains, str_contains, str_eq,
    strings_view,
};

verus! {

/// Why a command could not proceed.
#[derive(Debug)]
pub enum CliError {
    /// No `--obscura` flag and no `obscura` on `$PATH`.
    ObscuraNotFound,
    /// No scraper has this name.
    UnknownScraper(String),
}

impl CliError {
    /// The error message, for the named program (`fijit` or `fijjit`).
    pub fn message(&self, program: &str) -> (r: String)
        ensures
            r@ == (match *self {
                CliError::ObscuraNotFound => "obscura not found on $PATH; pass --obscura <path>"@,
                CliError::UnknownScraper(n) => "unknown scraper '"@ + n@ + "' (try `"@ + program@
                    + " list`)"@,
            }),
    {
        match self {
            CliError::ObscuraNotFound => "obscura not found on $PATH; pass --obscura <path>".to_owned(),
            CliError::UnknownScraper(n) => {
                let mut s = String::new();
                push_str_chars(&mut s, "unknown scraper '");
                push_str_chars(&mut s, n.as_str());
                push_str_chars(&mut s, "' (try `");
                push_str_chars(&mut s, program);
                push_str_chars(&mut s, " list`)");
                assert(s@ =~= "unknown scraper '"@ + n@ + "' (try `"@ + program@ + " list`)"@);
                s
            },
        }
    }
}

/// Resolve the Obscura binary path: the `--obscura` flag if given, otherwise
/// the `obscura` found on `$PATH` (looked up by the caller). Errors if neither
/// is available.
pub fn resolve_obscura(flag: Option<&str>, found_on_path: Option<String>) -> (r: Result<
    String,
    CliError,
>)
    ensures
        match flag {
            Some(p) => r matches Ok(s) && s@ == p@,
            None => match found_on_path {
                Some(f) => r matches Ok(s) && s@ == f@,
                None => r matches Err(CliError::ObscuraNotFound),
            },
        },
{
    match flag {
        Some(p) => Ok(p.to_owned()),
        None => match found_on_path {
            Some(f) => Ok(f),
            None => Err(CliError::ObscuraNotFound),
        },
    }
}

/// Find the first scraper called `name`.
pub fn find_scraper<'a, S: Scraper>(scrapers: &'a [S], name: &str) -> (r: Result<&'a S, CliError>)
    ensures
        match r {
            Ok(s) => exists|i: int|
                0 <= i < scrapers@.len() && scrapers@[i] == *s && s.spec_name() == name@ && forall|
                    j: int,
                | 0 <= j < i ==> scrapers@[j].spec_name() != name@,
            Err(e) => e matches CliError::UnknownScraper(n) && n@ == name@ && forall|j: int|
                0 <= j < scrapers@.len() ==> scrapers@[j].spec_name() != name@,
        },
{
    let mut i: usize = 0;
    while i < scrapers.len()
        invariant
            i <= scrapers@.len(),
            forall|j: int| 0 <= j < i ==> scrapers@[j].spec_name() != name@,
        decreases scrapers@.len() - i,
    {
        if str_eq(scrapers[i].name(), name) {
            return Ok(&scrapers[i]);
        }
        i += 1;
    }
    Err(CliError::UnknownScraper(name.to_owned()))
}

/// The message sent when a scraper fails: `template` with `{name}` and
/// `{error}` filled in.
pub fn on_error_text(template: &str, name: &str, error: &str) -> (r: String)
    ensures
        r@ == render_template(
            template@,
            Map::<Seq<char>, Seq<char>>::empty().insert("name"@, name@).insert("error"@, error@),
        ),
{
    let mut vars = StrMap::new();
    vars.insert("name".to_owned(), name.to_owned());
    vars.insert("error".to_owned(), error.to_owned());
    interpolate_template(template, &vars)
}

/// `s` padded with spaces on the right to `width` characters (as `{:<width}`).
pub open spec fn pad_right(s: Seq<char>, width: nat) -> Seq<char> {
    if s.len() >= width {
        s
    } else {
        s + Seq::new((width - s.len()) as nat, |i: int| ' ')
    }
}

pub(crate) fn push_padded(out: &mut String, s: &str, width: usize)
    ensures
        final(out)@ == old(out)@ + pad_right(s@, width as nat),
{
    let cs = chars_of(s);
    push_str_chars(out, s);
    let mut k = cs.len();
    while k < width
        invariant
            cs@ == s@,
            cs@.len() <= k <= width || k == cs@.len(),
            out@ == old(out)@ + s@ + Seq::new((k - cs@.len()) as nat, |i: int| ' '),
        decreases width - k,
    {
        out.push(' ');
        assert(out@ =~= old(out)@ + s@ + Seq::new((k + 1 - cs@.len()) as nat, |i: int| ' '));
        k += 1;
    }
    assert(out@ =~= old(out)@ + pad_right(s@, width as nat));
}

/// One row of `list`: name (20 wide), schedule (12 wide, `-` when none),
/// description.
pub fn list_row(name: &str, schedule: Option<&str>, description: &str, no_schedule: &str) -> (r:
    String)
    ensures
        r@ == pad_right(name@, 20) + " "@ + pad_right(
            match schedule {
                Some(s) => s@,
                None => no_schedule@,
            },
            12,
        ) + " "@ + description@,
{
    let mut out = String::new();
    push_padded(&mut out, name, 20);
    push_str_chars(&mut out, " ");
    let sched = match schedule {
        Some(s) => s,
        None => no_schedule,
    };
    push_padded(&mut out, sched, 12);
    push_str_chars(&mut out, " ");
    push_str_chars(&mut out, description);
    assert(out@ =~= pad_right(name@, 20) + " "@ + pad_right(sched@, 12) + " "@ + description@);
    out
}

/// The lines kept when a scraper's lines are dropped: those that mention
/// neither `tag` nor `marker`, and are not the scraper's entry directly under
/// a line that mentions `tag` (a line that mentions `entry_mark` there).
pub open spec fn lines_without(ls: Seq<Seq<char>>, tag: Seq<char>, marker: Seq<char>, entry_mark: Seq<char>) -> Seq<
    Seq<char>,
>
    decreases ls.len(),
{
    if ls.len() == 0 {
        seq![]
    } else {
        let r = lines_without(ls.drop_last(), tag, marker, entry_mark);
        let entry_under_tag = ls.len() >= 2 && seq_contains(ls[ls.len() - 2], tag) && seq_contains(
            ls.last(),
            entry_mark,
        );
        if !seq_contains(ls.last(), tag) && !seq_contains(ls.last(), marker) && !entry_under_tag {
            r.push(ls.last())
        } else {
            r
        }
    }
}

/// The crontab tag line of a scheduled scraper.
pub open spec fn cron_tag(program: Seq<char>, name: Seq<char>) -> Seq<char> {
    "# "@ + program + ":"@ + name
}

/// The text that marks a crontab line as running the scraper.
pub open spec fn run_marker(program: Seq<char>, name: Seq<char>) -> Seq<char> {
    program + " run "@ + name
}

/// The text by which a crontab line is the entry of scraper `name`.
pub open spec fn entry_mark(name: Seq<char>) -> Seq<char> {
    " run "@ + name
}

/// The crontab without the lines for scraper `name`, trailing whitespace removed.
pub open spec fn crontab_rest(existing: Seq<char>, program: Seq<char>, name: Seq<char>) -> Seq<char> {
    trim_end_spec(
        join(
            lines_without(
                lines_of(existing),
                cron_tag(program, name),
                run_marker(program, name),
                entry_mark(name),
            ),
            seq!['\n'],
        ),
    )
}

fn tag_text(program: &str, name: &str) -> (r: String)
    ensures
        r@ == cron_tag(program@, name@),
{
    let mut s = String::new();
    push_str_chars(&mut s, "# ");
    push_str_chars(&mut s, program);
    push_str_chars(&mut s, ":");
    push_str_chars(&mut s, name);
    assert(s@ =~= cron_tag(program@, name@));
    s
}

fn marker_text(program: &str, name: &str) -> (r: String)
    ensures
        r@ == run_marker(program@, name@),
{
    let mut s = String::new();
    push_str_chars(&mut s, program);
    push_str_chars(&mut s, " run ");
    push_str_chars(&mut s, name);
    assert(s@ =~= run_marker(program@, name@));
    s
}

fn rest_of_crontab(existing: &str, program: &str, name: &str) -> (r: String)
    ensures
        r@ == crontab_rest(existing@, program@, name@),
{
    let tag = tag_text(program, name);
    let marker = marker_text(program, name);
    let mut mark = String::new();
    push_str_chars(&mut mark, " run ");
    push_str_chars(&mut mark, name);
    assert(mark@ =~= entry_mark(name@));
    let all = lines(existing);
    let mut kept: Vec<String> = Vec::new();
    let mut i: usize = 0;
    while i < all.len()
        invariant
            i <= all@.len(),
            strings_view(kept@) == lines_without(strings_view(all@.take(i as int)), tag@, marker@, mark@),
        decreases all@.len() - i,
    {
        proof {
            assert(strings_view(all@.take(i + 1)).drop_last() =~= strings_view(all@.take(i as int)));
            assert(strings_view(all@.take(i + 1)).last() == all@[i as int]@);
        }
        let follows_tag = i > 0 && str_contains(all[i - 1].as_str(), tag.as_str()) && str_contains(
            all[i].as_str(),
            mark.as_str(),
        );
        proof {
            if i > 0 {
                assert(strings_view(all@.take(i + 1))[i - 1] == all@[i - 1]@);
            }
        }
        if !str_contains(all[i].as_str(), tag.as_str()) && !str_contains(all[i].as_str(), marker.as_str())
            && !follows_tag {
            let ghost before = kept@;
            kept.push(all[i].clone());
            assert(strings_view(kept@) =~= strings_view(before).push(all@[i as int]@));
        }
        i += 1;
    }
    assert(all@.take(all@.len() as int) =~= all@);
    let joined = join_strings(&kept, "\n");
    proof {
        reveal_strlit("\n");
        assert("\n"@ =~= seq!['\n']);
    }
    trim_end(joined.as_str())
}

/// The crontab line that runs scraper `name` on schedule `cron` from
/// `cron_dir`, logging to `/var/log/fijit/<name>.log`, and that log path.
pub fn schedule_entry(name: &str, cron: &str, cron_dir: &str, binary: &str, obscura: &str) -> (r: (
    String,
    String,
))
    ensures
        r.1@ == "/var/log/fijit/"@ + name@ + ".log"@,
        r.0@ == cron@ + "\tcd "@ + cron_dir@ + " && "@ + binary@ + " --obscura "@ + obscura@ + " run "@
            + name@ + " >> "@ + r.1@ + " 2>&1"@,
{
    let mut log = String::new();
    push_str_chars(&mut log, "/var/log/fijit/");
    push_str_chars(&mut log, name);
    push_str_chars(&mut log, ".log");
    let mut e = String::new();
    push_str_chars(&mut e, cron);
    push_str_chars(&mut e, "\tcd ");
    push_str_chars(&mut e, cron_dir);
    push_str_chars(&mut e, " && ");
    push_str_chars(&mut e, binary);
    push_str_chars(&mut e, " --obscura ");
    push_str_chars(&mut e, obscura);
    push_str_chars(&mut e, " run ");
    push_str_chars(&mut e, name);
    push_str_chars(&mut e, " >> ");
    push_str_chars(&mut e, log.as_str());
    push_str_chars(&mut e, " 2>&1");
    assert(log@ =~= "/var/log/fijit/"@ + name@ + ".log"@);
    assert(e@ =~= cron@ + "\tcd "@ + cron_dir@ + " && "@ + binary@ + " --obscura "@ + obscura@
        + " run "@ + name@ + " >> "@ + log@ + " 2>&1"@);
    (e, log)
}

/// The crontab line of the `fijjit` tool: run scraper `name` on schedule
/// `cron` from `cron_dir`, without a log file.
pub fn basic_schedule_entry(name: &str, cron: &str, cron_dir: &str, binary: &str) -> (r: String)
    ensures
        r@ == cron@ + "\tcd "@ + cron_dir@ + " && "@ + binary@ + " run "@ + name@,
{
    let mut e = String::new();
    push_str_chars(&mut e, cron);
    push_str_chars(&mut e, "\tcd ");
    push_str_chars(&mut e, cron_dir);
    push_str_chars(&mut e, " && ");
    push_str_chars(&mut e, binary);
    push_str_chars(&mut e, " run ");
    push_str_chars(&mut e, name);
    assert(e@ =~= cron@ + "\tcd "@ + cron_dir@ + " && "@ + binary@ + " run "@ + name@);
    e
}

/// The new crontab after scheduling `name`: every other line kept (trailing
/// whitespace dropped), then the tag line and `entry`, each ended by a newline.
pub fn scheduled_crontab(existing: &str, program: &str, name: &str, entry: &str) -> (r: String)
    ensures
        r@ == crontab_rest(existing@, program@, name@) + seq!['\n'] + cron_tag(program@, name@) + seq![
            '\n',
        ] + entry@ + seq!['\n'],
{
    let mut out = rest_of_crontab(existing, program, name);
    out.push('\n');
    let tag = tag_text(program, name);
    push_str_chars(&mut out, tag.as_str());
    out.push('\n');
    push_str_chars(&mut out, entry);
    out.push('\n');
    out
}

/// The new crontab after unscheduling `name`: every other line kept (trailing
/// whitespace dropped), ended by a newline.
pub fn unscheduled_crontab(existing: &str, program: &str, name: &str) -> (r: String)
    ensures
        r@ == crontab_rest(existing@, program@, name@) + seq!['\n'],
{
    let mut out = rest_of_crontab(existing, program, name);
    out.push('\n');
    out
}

/// What `lines_without` keeps comes from the lines and mentions neither text.
proof fn lemma_lines_without(ls: Seq<Seq<char>>, tag: Seq<char>, marker: Seq<char>, em: Seq<char>)
    ensures
        forall|j: int|
            0 <= j < lines_without(ls, tag, marker, em).len() ==> !seq_contains(
                #[trigger] lines_without(ls, tag, marker, em)[j],
                tag,
            ) && !seq_contains(lines_without(ls, tag, marker, em)[j], marker) && ls.contains(
                lines_without(ls, tag, marker, em)[j],
            ),
    decreases ls.len(),
{
    if ls.len() > 0 {
        let d = ls.drop_last();
        lemma_lines_without(d, tag, marker, em);
        let r = lines_without(d, tag, marker, em);
        assert forall|j: int| 0 <= j < lines_without(ls, tag, marker, em).len() implies !seq_contains(
            #[trigger] lines_without(ls, tag, marker, em)[j],
            tag,
        ) && !seq_contains(lines_without(ls, tag, marker, em)[j], marker) && ls.contains(
            lines_without(ls, tag, marker, em)[j],
        ) by {
            if j < r.len() {
                assert(lines_without(ls, tag, marker, em)[j] == r[j]);
                let x = choose|x: int| 0 <= x < d.len() && d[x] == r[j];
                assert(ls[x] == d[x]);
            } else {
                assert(lines_without(ls, tag, marker, em)[j] == ls.last());
                assert(ls[ls.len() - 1] == ls.last());
            }
        }
    }
}

/// A non-empty newline-free stretch of newline-joined lines lies within one
/// of the lines.
proof fn lemma_join_stretch(ks: Seq<Seq<char>>, a: int, b: int)
    requires
        forall|i: int| 0 <= i < ks.len() ==> newline_free(#[trigger] ks[i]),
        0 <= a < b <= join(ks, seq!['\n']).len(),
        newline_free(join(ks, seq!['\n']).subrange(a, b)),
    ensures
        exists|i: int, c: int|
            0 <= i < ks.len() && 0 <= c && c + (b - a) <= ks[i].len() && join(ks, seq!['\n']).subrange(
                a,
                b,
            ) == #[trigger] ks[i].subrange(c, c + (b - a)),
    decreases ks.len(),
{
    let j = join(ks, seq!['\n']);
    if ks.len() == 1 {
        assert(j == ks[0]);
        assert(j.subrange(a, b) == ks[0].subrange(a, a + (b - a)));
    } else {
        lemma_join_front(ks, seq!['\n']);
        let k0 = ks[0];
        let rest = ks.drop_first();
        let jr = join(rest, seq!['\n']);
        assert(j =~= k0 + seq!['\n'] + jr);
        if b <= k0.len() {
            assert(j.subrange(a, b) =~= k0.subrange(a, a + (b - a)));
        } else if a > k0.len() {
            assert forall|i: int| 0 <= i < rest.len() implies newline_free(#[trigger] rest[i]) by {
                assert(rest[i] == ks[i + 1]);
            }
            assert(j.subrange(a, b) =~= jr.subrange(a - k0.len() - 1, b - k0.len() - 1));
            lemma_join_stretch(rest, a - k0.len() - 1, b - k0.len() - 1);
            let (i, c) = choose|i: int, c: int|
                0 <= i < rest.len() && 0 <= c && c + (b - a) <= rest[i].len() && jr.subrange(
                    a - k0.len() - 1,
                    b - k0.len() - 1,
                ) == #[trigger] rest[i].subrange(c, c + (b - a));
            assert(ks[i + 1] == rest[i]);
        } else {
            assert(j[k0.len() as int] == '\n');
            assert(j.subrange(a, b)[k0.len() - a] == '\n');
        }
    }
}

proof fn lemma_contains_within(k: Seq<char>, c: int, m: int, p: Seq<char>)
    requires
        0 <= c,
        0 <= m,
        c + m <= k.len(),
        seq_contains(k.subrange(c, c + m), p),
    ensures
        seq_contains(k, p),
{
    let t = k.subrange(c, c + m);
    let i = choose|i: int| occurs_at(t, p, i);
    assert(k.subrange(c + i, c + i + p.len()) =~= t.subrange(i, i + p.len()));
    assert(occurs_at(k, p, c + i));
}

/// After `unschedule`, no line of the crontab carries the scraper's tag or
/// the run marker (`<program> run <name>`).
pub proof fn law_unschedule_clears_scraper(existing: Seq<char>, program: Seq<char>, name: Seq<char>)
    ensures
        forall|i: int|
            0 <= i < lines_of(crontab_rest(existing, program, name) + seq!['\n']).len() ==> !seq_contains(
                #[trigger] lines_of(crontab_rest(existing, program, name) + seq!['\n'])[i],
                cron_tag(program, name),
            ) && !seq_contains(
                lines_of(crontab_rest(existing, program, name) + seq!['\n'])[i],
                run_marker(program, name),
            ),
{
    lemma_rest_clear(existing, program, name);
}

/// The lines of the crontab after scheduling `name` with `entry`.
pub open spec fn scheduled_lines(existing: Seq<char>, program: Seq<char>, name: Seq<char>, entry: Seq<char>) -> Seq<
    Seq<char>,
> {
    lines_of(
        crontab_rest(existing, program, name) + seq!['\n'] + cron_tag(program, name) + seq!['\n'] + entry
            + seq!['\n'],
    )
}

/// After `schedule`, the crontab ends with the scraper's tag line and its
/// entry, and no line before them carries the tag or the run marker
/// (`<program> run <name>`).
pub proof fn law_schedule_ends_with_entry(
    existing: Seq<char>,
    program: Seq<char>,
    name: Seq<char>,
    entry: Seq<char>,
)
    requires
        newline_free(program),
        newline_free(name),
        newline_free(entry),
    ensures
        scheduled_lines(existing, program, name, entry).len() >= 2,
        scheduled_lines(existing, program, name, entry)[scheduled_lines(existing, program, name, entry).len()
            - 2] == strip_cr(cron_tag(program, name)),
        scheduled_lines(existing, program, name, entry)[scheduled_lines(existing, program, name, entry).len()
            - 1] == strip_cr(entry),
        forall|i: int|
            0 <= i < scheduled_lines(existing, program, name, entry).len() - 2 ==> !seq_contains(
                #[trigger] scheduled_lines(existing, program, name, entry)[i],
                cron_tag(program, name),
            ) && !seq_contains(
                scheduled_lines(existing, program, name, entry)[i],
                run_marker(program, name),
            ),
{
    reveal_strlit("# ");
    reveal_strlit(":");
    let rest = crontab_rest(existing, program, name);
    let tag = cron_tag(program, name);
    assert forall|k: int| 0 <= k < tag.len() implies #[trigger] tag[k] != '\n' by {
        if k < 2 {
        } else if k < 2 + program.len() {
            assert(tag[k] == program[k - 2]);
        } else if k == 2 + program.len() {
        } else {
            assert(tag[k] == name[k - 3 - program.len()]);
        }
    }
    let tail = tag + seq!['\n'] + entry + seq!['\n'];
    assert(rest + seq!['\n'] + tag + seq!['\n'] + entry + seq!['\n'] =~= rest + seq!['\n'] + tail);
    lemma_lines_concat(rest, tail);
    lemma_lines_concat(tag, entry + seq!['\n']);
    assert(tail =~= tag + seq!['\n'] + (entry + seq!['\n']));
    lemma_lines_one(tag);
    lemma_lines_one(entry);
    lemma_rest_clear(existing, program, name);
    let head = lines_of(rest + seq!['\n']);
    let ls = scheduled_lines(existing, program, name, entry);
    assert(ls =~= head + seq![strip_cr(tag), strip_cr(entry)]);
    assert forall|i: int| 0 <= i < ls.len() - 2 implies !seq_contains(#[trigger] ls[i], tag) && !seq_contains(
        ls[i],
        run_marker(program, name),
    ) by {
        assert(ls[i] == head[i]);
    }
}

proof fn lemma_rest_clear(existing: Seq<char>, program: Seq<char>, name: Seq<char>)
    ensures
        forall|i: int|
            0 <= i < lines_of(crontab_rest(existing, program, name) + seq!['\n']).len() ==> !seq_contains(
                #[trigger] lines_of(crontab_rest(existing, program, name) + seq!['\n'])[i],
                cron_tag(program, name),
            ) && !seq_contains(
                lines_of(crontab_rest(existing, program, name) + seq!['\n'])[i],
                run_marker(program, name),
            ),
{
    reveal_strlit("# ");
    reveal_strlit(" run ");
    let tag = cron_tag(program, name);
    let marker = run_marker(program, name);
    let em = entry_mark(name);
    let ls = lines_of(existing);
    let kept = lines_without(ls, tag, marker, em);
    let jn = join(kept, seq!['\n']);
    let t = trim_end_spec(jn);
    let s = t + seq!['\n'];
    assert(t + seq!['\n'] == crontab_rest(existing, program, name) + seq!['\n']);
    lemma_lines_without(ls, tag, marker, em);
    lemma_lines_are_stretches(existing);
    lemma_lines_are_stretches(s);
    lemma_trim_end_prefix(jn);
    assert forall|i: int| 0 <= i < kept.len() implies newline_free(#[trigger] kept[i]) by {
        let x = choose|x: int| 0 <= x < ls.len() && ls[x] == kept[i];
        let (a, b) = choose|a: int, b: int|
            0 <= a <= b <= existing.len() && #[trigger] ls[x] == existing.subrange(a, b)
                && newline_free(existing.subrange(a, b));
    }
    assert forall|i: int| 0 <= i < lines_of(s).len() implies !seq_contains(
        #[trigger] lines_of(s)[i],
        tag,
    ) && !seq_contains(lines_of(s)[i], marker) by {
        let l = lines_of(s)[i];
        let (a, b) = choose|a: int, b: int|
            0 <= a <= b <= s.len() && lines_of(s)[i] == s.subrange(a, b) && newline_free(
                s.subrange(a, b),
            );
        if a == b {
            assert(l.len() == 0);
        } else {
            if b == s.len() {
                assert(s.subrange(a, b)[b - 1 - a] == '\n');
            }
            assert(b <= t.len());
            assert(l =~= jn.subrange(a, b));
            lemma_join_stretch(kept, a, b);
            let (k, c) = choose|k: int, c: int|
                0 <= k < kept.len() && 0 <= c && c + (b - a) <= kept[k].len() && jn.subrange(a, b)
                    == #[trigger] kept[k].subrange(c, c + (b - a));
            if seq_contains(l, tag) {
                lemma_contains_within(kept[k], c, b - a, tag);
            }
            if seq_contains(l, marker) {
                lemma_contains_within(kept[k], c, b - a, marker);
            }
        }
    }
}

/// The crontab text after scheduling `name` with `entry`.
pub open spec fn scheduled_text(existing: Seq<char>, program: Seq<char>, name: Seq<char>, entry: Seq<char>) -> Seq<
    char,
> {
    crontab_rest(existing, program, name) + seq!['\n'] + cron_tag(program, name) + seq!['\n'] + entry
        + seq!['\n']
}

/// The crontab text after unscheduling `name`.
pub open spec fn unscheduled_text(existing: Seq<char>, program: Seq<char>, name: Seq<char>) -> Seq<char> {
    crontab_rest(existing, program, name) + seq!['\n']
}

proof fn lemma_tag_newline_free(program: Seq<char>, name: Seq<char>)
    requires
        newline_free(program),
        newline_free(name),
    ensures
        newline_free(cron_tag(program, name)),
        name.len() > 0 ==> cron_tag(program, name).last() == name.last(),
        cron_tag(program, name).len() > 0,
{
    reveal_strlit("# ");
    reveal_strlit(":");
    let tag = cron_tag(program, name);
    assert forall|k: int| 0 <= k < tag.len() implies #[trigger] tag[k] != '\n' by {
        if k < 2 {
        } else if k < 2 + program.len() {
            assert(tag[k] == program[k - 2]);
        } else if k == 2 + program.len() {
        } else {
            assert(tag[k] == name[k - 3 - program.len()]);
        }
    }
}

proof fn lemma_lines_without_tail(
    ls: Seq<Seq<char>>,
    t: Seq<char>,
    e: Seq<char>,
    tag: Seq<char>,
    marker: Seq<char>,
    em: Seq<char>,
)
    requires
        seq_contains(t, tag),
        seq_contains(e, em),
    ensures
        lines_without(ls + seq![t, e], tag, marker, em) == lines_without(ls, tag, marker, em),
{
    let x = ls + seq![t, e];
    let y = ls + seq![t];
    assert(x.drop_last() =~= y);
    assert(x[x.len() - 2] == t);
    assert(x.last() == e);
    assert(x.len() >= 2 && seq_contains(x[x.len() - 2], tag));
    assert(lines_without(x, tag, marker, em) == lines_without(y, tag, marker, em));
    assert(y.drop_last() =~= ls);
    assert(y.last() == t);
    assert(lines_without(y, tag, marker, em) == lines_without(ls, tag, marker, em));
}

proof fn lemma_lines_without_clear(ls: Seq<Seq<char>>, tag: Seq<char>, marker: Seq<char>, em: Seq<char>)
    requires
        forall|i: int|
            0 <= i < ls.len() ==> !seq_contains(#[trigger] ls[i], tag) && !seq_contains(ls[i], marker),
    ensures
        lines_without(ls, tag, marker, em) == ls,
    decreases ls.len(),
{
    if ls.len() > 0 {
        let d = ls.drop_last();
        assert forall|i: int| 0 <= i < d.len() implies !seq_contains(#[trigger] d[i], tag)
            && !seq_contains(d[i], marker) by {
            assert(d[i] == ls[i]);
        }
        lemma_lines_without_clear(d, tag, marker, em);
        assert(ls[ls.len() - 1] == ls.last());
        if ls.len() >= 2 {
            assert(!seq_contains(ls[ls.len() - 2], tag));
        }
        assert(d.push(ls.last()) =~= ls);
    }
}

/// Every carriage return in `s` is followed by a character other than a
/// newline: no line of `s` ends with `\r`.
pub open spec fn no_cr_line_end(s: Seq<char>) -> bool {
    forall|i: int| 0 <= i < s.len() && #[trigger] s[i] == '\r' ==> i + 1 < s.len() && s[i + 1] != '\n'
}

/// Splitting `r` plus a final newline into lines and joining them again
/// gives `r` back, when no line of `r` ends with `\r`.
proof fn lemma_join_lines(r: Seq<char>)
    requires
        no_cr_line_end(r),
    ensures
        join(lines_of(r + seq!['\n']), seq!['\n']) == r,
    decreases r.len(),
{
    crate::lines::lemma_first_newline(r);
    let n = crate::lines::first_newline(r);
    if n >= r.len() {
        assert(newline_free(r));
        lemma_lines_one(r);
        if r.len() > 0 {
            assert(r.last() != '\r') by {
                if r.last() == '\r' {
                    assert(r[r.len() - 1] == '\r');
                }
            }
        }
        assert(strip_cr(r) == r);
    } else {
        let r0 = r.take(n);
        let r1 = r.skip(n + 1);
        assert(r =~= r0 + seq!['\n'] + r1);
        assert(no_cr_line_end(r1)) by {
            assert forall|k: int| 0 <= k < r1.len() && #[trigger] r1[k] == '\r' implies k + 1 < r1.len()
                && r1[k + 1] != '\n' by {
                assert(r[n + 1 + k] == '\r');
                assert(r[n + 1 + k + 1] == r1[k + 1]);
            }
        }
        assert(newline_free(r0));
        lemma_join_lines(r1);
        lemma_lines_concat(r0, r1 + seq!['\n']);
        assert(r + seq!['\n'] =~= r0 + seq!['\n'] + (r1 + seq!['\n']));
        lemma_lines_one(r0);
        if r0.len() > 0 {
            assert(r0.last() != '\r') by {
                if r0.last() == '\r' {
                    assert(r[n - 1] == '\r');
                    assert(r[n] == '\n');
                }
            }
        }
        assert(strip_cr(r0) == r0);
        let rest_lines = lines_of(r1 + seq!['\n']);
        assert(rest_lines.len() > 0);
        let all = seq![r0] + rest_lines;
        assert(lines_of(r + seq!['\n']) == all);
        if rest_lines.len() >= 1 {
            lemma_join_front(all, seq!['\n']);
            assert(all.drop_first() =~= rest_lines);
        }
    }
}

proof fn lemma_trim_end_idempotent(x: Seq<char>)
    ensures
        trim_end_spec(trim_end_spec(x)) == trim_end_spec(x),
    decreases x.len(),
{
    if x.len() > 0 && crate::lines::is_ws(x.last()) {
        lemma_trim_end_idempotent(x.drop_last());
    }
}

proof fn lemma_trim_end_last(x: Seq<char>)
    ensures
        trim_end_spec(x).len() > 0 ==> !crate::lines::is_ws(trim_end_spec(x).last()),
    decreases x.len(),
{
    if x.len() > 0 && crate::lines::is_ws(x.last()) {
        lemma_trim_end_last(x.drop_last());
    }
}

/// Trimming the end keeps every line from ending with `\r`.
proof fn lemma_trim_end_no_cr_line_end(x: Seq<char>)
    requires
        no_cr_line_end(x),
    ensures
        no_cr_line_end(trim_end_spec(x)),
{
    let t = trim_end_spec(x);
    lemma_trim_end_prefix(x);
    lemma_trim_end_last(x);
    assert forall|k: int| 0 <= k < t.len() && #[trigger] t[k] == '\r' implies k + 1 < t.len() && t[k
        + 1] != '\n' by {
        assert(x[k] == '\r');
        if k + 1 == t.len() {
            assert(t.last() == '\r');
        } else {
            assert(t[k + 1] == x[k + 1]);
        }
    }
}

/// No line of `s` ends with `\r`: then neither does any line `lines_of` gives.
proof fn lemma_lines_no_cr_line_end(s: Seq<char>)
    requires
        no_cr_line_end(s),
    ensures
        forall|i: int| 0 <= i < lines_of(s).len() ==> no_cr_line_end(#[trigger] lines_of(s)[i]),
    decreases s.len(),
{
    if s.len() > 0 {
        crate::lines::lemma_first_newline(s);
        let n = crate::lines::first_newline(s);
        if n < s.len() {
            let s0 = s.take(n);
            let s1 = s.skip(n + 1);
            assert(no_cr_line_end(s0)) by {
                assert forall|k: int| 0 <= k < s0.len() && #[trigger] s0[k] == '\r' implies k + 1
                    < s0.len() && s0[k + 1] != '\n' by {
                    assert(s[k] == '\r');
                    if k + 1 == n {
                        assert(s[n] == '\n');
                    } else {
                        assert(s0[k + 1] == s[k + 1]);
                    }
                }
            }
            if s0.len() > 0 {
                assert(s0.last() != '\r') by {
                    if s0.last() == '\r' {
                        assert(s0[s0.len() - 1] == '\r');
                    }
                }
            }
            assert(strip_cr(s0) == s0);
            assert(no_cr_line_end(s1)) by {
                assert forall|k: int| 0 <= k < s1.len() && #[trigger] s1[k] == '\r' implies k + 1
                    < s1.len() && s1[k + 1] != '\n' by {
                    assert(s[n + 1 + k] == '\r');
                    assert(s[n + 1 + k + 1] == s1[k + 1]);
                }
            }
            lemma_lines_no_cr_line_end(s1);
            let ls = lines_of(s);
            assert(ls == seq![strip_cr(s0)] + lines_of(s1));
            assert forall|i: int| 0 <= i < ls.len() implies no_cr_line_end(#[trigger] ls[i]) by {
                if i > 0 {
                    assert(ls[i] == lines_of(s1)[i - 1]);
                }
            }
        }
    }
}

proof fn lemma_join_no_cr_line_end(ks: Seq<Seq<char>>)
    requires
        forall|i: int| 0 <= i < ks.len() ==> no_cr_line_end(#[trigger] ks[i]),
    ensures
        no_cr_line_end(join(ks, seq!['\n'])),
    decreases ks.len(),
{
    if ks.len() > 1 {
        let d = ks.drop_last();
        assert forall|i: int| 0 <= i < d.len() implies no_cr_line_end(#[trigger] d[i]) by {
            assert(d[i] == ks[i]);
        }
        lemma_join_no_cr_line_end(d);
        let j = join(ks, seq!['\n']);
        let jd = join(d, seq!['\n']);
        let last = ks.last();
        assert(j == jd + seq!['\n'] + last);
        assert(no_cr_line_end(ks[ks.len() - 1]));
        assert forall|k: int| 0 <= k < j.len() && #[trigger] j[k] == '\r' implies k + 1 < j.len() && j[k
            + 1] != '\n' by {
            if k < jd.len() {
                assert(jd[k] == '\r');
                assert(j[k + 1] == jd[k + 1]);
            } else if k > jd.len() {
                assert(last[k - jd.len() - 1] == '\r');
                assert(j[k + 1] == last[k - jd.len()]);
            }
        }
    } else if ks.len() == 1 {
        assert(join(ks, seq!['\n']) == ks[0]);
    }
}

proof fn lemma_rest_no_cr_line_end(existing: Seq<char>, program: Seq<char>, name: Seq<char>)
    requires
        no_cr_line_end(existing),
    ensures
        no_cr_line_end(crontab_rest(existing, program, name)),
{
    let tag = cron_tag(program, name);
    let marker = run_marker(program, name);
    let em = entry_mark(name);
    let ls = lines_of(existing);
    let kept = lines_without(ls, tag, marker, em);
    lemma_lines_without(ls, tag, marker, em);
    lemma_lines_no_cr_line_end(existing);
    assert forall|i: int| 0 <= i < kept.len() implies no_cr_line_end(#[trigger] kept[i]) by {
        let x = choose|x: int| 0 <= x < ls.len() && ls[x] == kept[i];
    }
    lemma_join_no_cr_line_end(kept);
    lemma_trim_end_no_cr_line_end(join(kept, seq!['\n']));
}

proof fn lemma_contains_strip_cr(e: Seq<char>, p: Seq<char>)
    requires
        seq_contains(e, p),
        p.len() > 0,
        p.last() != '\r',
    ensures
        seq_contains(strip_cr(e), p),
{
    if e.len() > 0 && e.last() == '\r' {
        let i = choose|i: int| occurs_at(e, p, i);
        assert(e.subrange(i, i + p.len())[p.len() - 1] == p[p.len() - 1]);
        assert(i + p.len() < e.len());
        assert(strip_cr(e).subrange(i, i + p.len()) =~= e.subrange(i, i + p.len()));
        assert(occurs_at(strip_cr(e), p, i));
    }
}

/// Unscheduling a scraper right after scheduling it gives the crontab that
/// unscheduling alone gives: the tag line and the entry written under it are
/// both removed, and every other line is kept in order.
pub proof fn law_unschedule_undoes_schedule(
    existing: Seq<char>,
    program: Seq<char>,
    name: Seq<char>,
    entry: Seq<char>,
)
    requires
        newline_free(program),
        newline_free(name),
        name.len() > 0 ==> name.last() != '\r',
        newline_free(entry),
        seq_contains(entry, entry_mark(name)),
        no_cr_line_end(existing),
    ensures
        unscheduled_text(scheduled_text(existing, program, name, entry), program, name)
            == unscheduled_text(existing, program, name),
{
    let tag = cron_tag(program, name);
    let marker = run_marker(program, name);
    let em = entry_mark(name);
    let rest = crontab_rest(existing, program, name);
    let x = scheduled_text(existing, program, name, entry);
    lemma_tag_newline_free(program, name);
    reveal_strlit(":");
    reveal_strlit("# ");
    reveal_strlit(" run ");
    assert(tag.last() != '\r');
    assert(strip_cr(tag) == tag);
    assert(em.len() > 0 && em.last() != '\r') by {
        if name.len() > 0 {
            assert(em.last() == name.last());
        } else {
            assert(em.last() == ' ');
        }
    }
    lemma_contains_strip_cr(entry, em);
    let tail = tag + seq!['\n'] + entry + seq!['\n'];
    assert(x =~= rest + seq!['\n'] + tail);
    lemma_lines_concat(rest, tail);
    lemma_lines_concat(tag, entry + seq!['\n']);
    assert(tail =~= tag + seq!['\n'] + (entry + seq!['\n']));
    lemma_lines_one(tag);
    lemma_lines_one(entry);
    let head = lines_of(rest + seq!['\n']);
    assert(lines_of(x) =~= head + seq![tag, strip_cr(entry)]);
    assert(tag.subrange(0, tag.len() as int) =~= tag);
    assert(occurs_at(tag, tag, 0));
    lemma_lines_without_tail(head, tag, strip_cr(entry), tag, marker, em);
    lemma_rest_clear(existing, program, name);
    lemma_lines_without_clear(head, tag, marker, em);
    lemma_rest_no_cr_line_end(existing, program, name);
    lemma_join_lines(rest);
    lemma_trim_end_idempotent(join(lines_without(lines_of(existing), tag, marker, em), seq!['\n']));
}

/// Scheduling a scraper a second time, with the same entry, leaves the
/// crontab as the first scheduling left it: one tag line and one entry.
pub proof fn law_schedule_twice_same(
    existing: Seq<char>,
    program: Seq<char>,
    name: Seq<char>,
    entry: Seq<char>,
)
    requires
        newline_free(program),
        newline_free(name),
        name.len() > 0 ==> name.last() != '\r',
        newline_free(entry),
        seq_contains(entry, entry_mark(name)),
        no_cr_line_end(existing),
    ensures
        scheduled_text(scheduled_text(existing, program, name, entry), program, name, entry)
            == scheduled_text(existing, program, name, entry),
{
    law_unschedule_undoes_schedule(existing, program, name, entry);
    let once = scheduled_text(existing, program, name, entry);
    assert(crontab_rest(once, program, name) + seq!['\n'] == crontab_rest(existing, program, name)
        + seq!['\n']);
    assert(crontab_rest(once, program, name) =~= crontab_rest(existing, program, name)) by {
        let a = crontab_rest(once, program, name);
        let b = crontab_rest(existing, program, name);
        assert(a.len() == b.len());
        assert forall|k: int| 0 <= k < a.len() implies a[k] == b[k] by {
            assert((a + seq!['\n'])[k] == (b + seq!['\n'])[k]);
        }
    }
}

/// A crontab that carries no line of the scraper and ends with exactly one
/// newline is left as it is by unscheduling; so scheduling and then
/// unscheduling gives it back unchanged.
pub proof fn law_clean_crontab_comes_back(
    existing: Seq<char>,
    program: Seq<char>,
    name: Seq<char>,
    entry: Seq<char>,
)
    requires
        newline_free(program),
        newline_free(name),
        name.len() > 0 ==> name.last() != '\r',
        newline_free(entry),
        seq_contains(entry, entry_mark(name)),
        no_cr_line_end(existing),
        existing == trim_end_spec(existing) + seq!['\n'],
        forall|i: int|
            0 <= i < lines_of(existing).len() ==> !seq_contains(
                #[trigger] lines_of(existing)[i],
                cron_tag(program, name),
            ) && !seq_contains(lines_of(existing)[i], run_marker(program, name)),
    ensures
        unscheduled_text(existing, program, name) == existing,
        unscheduled_text(scheduled_text(existing, program, name, entry), program, name) == existing,
{
    let tag = cron_tag(program, name);
    let marker = run_marker(program, name);
    let em = entry_mark(name);
    let r = trim_end_spec(existing);
    lemma_lines_without_clear(lines_of(existing), tag, marker, em);
    assert(no_cr_line_end(r)) by {
        lemma_trim_end_no_cr_line_end(existing);
    }
    lemma_join_lines(r);
    lemma_trim_end_idempotent(existing);
    law_unschedule_undoes_schedule(existing, program, name, entry);
}

} // verus!
