//! The Obscura headless browser: how it is invoked and how its output is read.
use vstd::prelude::*;
use crate::lines::{lines, lines_of, trim, trim_spec};
use crate::text::{chars_of, nat_text, push_chars, push_str_chars, strings_view, u64_text};

verus! {

/// Runs the Obscura binary.
pub struct ObscuraRunner {
    /// Path to the binary.
    pub binary: String,
}

/// The first line of `raw` that, trimmed, starts with `[` or `{`, trimmed.
pub open spec fn first_json_line_in(ls: Seq<Seq<char>>) -> Option<Seq<char>>
    decreases ls.len(),
{
    if ls.len() == 0 {
        None
    } else {
        let t = trim_spec(ls[0]);
        if t.len() > 0 && (t[0] == '[' || t[0] == '{') {
            Some(t)
        } else {
            first_json_line_in(ls.drop_first())
        }
    }
}

/// The arguments of an Obscura run: fetch `url` in stealth mode, wait, then
/// evaluate `script` quietly.
pub open spec fn eval_arguments(url: Seq<char>, script: Seq<char>, wait_secs: u64) -> Seq<Seq<char>> {
    seq![
        "fetch"@,
        url,
        "--stealth"@,
        "--wait"@,
        nat_text(wait_secs as nat),
        "--eval"@,
        script,
        "--quiet"@,
    ]
}

/// The number of bytes `c` takes in UTF-8.
pub open spec fn utf8_len(c: char) -> nat {
    if (c as u32) < 0x80 {
        1
    } else if (c as u32) < 0x800 {
        2
    } else if (c as u32) < 0x10000 {
        3
    } else {
        4
    }
}

/// The longest prefix of `s` that takes at most `limit` bytes in UTF-8: the
/// text cut at the last character boundary within `limit` bytes.
pub open spec fn byte_prefix(s: Seq<char>, limit: nat) -> Seq<char>
    decreases s.len(),
{
    if s.len() == 0 || utf8_len(s[0]) > limit {
        Seq::empty()
    } else {
        seq![s[0]] + byte_prefix(s.drop_first(), (limit - utf8_len(s[0])) as nat)
    }
}

/// The error for a run whose output holds no JSON: the output's first 400
/// bytes, cut at a character boundary, after a heading.
pub open spec fn no_json_message(raw: Seq<char>) -> Seq<char> {
    "no JSON found in obscura output:\n"@ + byte_prefix(raw, 400)
}

/// The error for a run that exited unsuccessfully: its exit status and the
/// first 300 characters of what it wrote to stderr.
pub open spec fn exit_message_text(status: Seq<char>, stderr: Seq<char>) -> Seq<char> {
    "obscura exited "@ + status + ": "@ + stderr.take(if stderr.len() < 300 { stderr.len() as int } else { 300 })
}

fn utf8_width(c: char) -> (n: usize)
    ensures
        n == utf8_len(c),
{
    let u = c as u32;
    if u < 0x80 {
        1
    } else if u < 0x800 {
        2
    } else if u < 0x10000 {
        3
    } else {
        4
    }
}

/// The characters of `s` that fit in `limit` bytes of UTF-8, cut at a
/// character boundary.
fn byte_prefix_chars(s: &str, limit: usize) -> (r: Vec<char>)
    ensures
        r@ == byte_prefix(s@, limit as nat),
{
    let cs = chars_of(s);
    let mut out: Vec<char> = Vec::new();
    let mut used: usize = 0;
    let mut i: usize = 0;
    assert(cs@.skip(0) =~= cs@);
    while i < cs.len()
        invariant
            i <= cs@.len(),
            cs@ == s@,
            used <= limit,
            out@ == cs@.take(i as int),
            byte_prefix(cs@, limit as nat) == out@ + byte_prefix(cs@.skip(i as int), (limit - used) as nat),
        decreases cs@.len() - i,
    {
        let w = utf8_width(cs[i]);
        let ghost rest = cs@.skip(i as int);
        assert(rest[0] == cs@[i as int]);
        assert(rest.drop_first() =~= cs@.skip(i + 1));
        if w > limit - used {
            assert(byte_prefix(rest, (limit - used) as nat) =~= Seq::<char>::empty());
            assert(out@ + Seq::<char>::empty() =~= out@);
            return out;
        }
        out.push(cs[i]);
        assert(out@ =~= cs@.take(i + 1));
        assert(cs@.take(i as int) + (seq![cs@[i as int]] + byte_prefix(cs@.skip(i + 1), (limit - used - w) as nat))
            =~= cs@.take(i + 1) + byte_prefix(cs@.skip(i + 1), (limit - used - w) as nat));
        used = used + w;
        i += 1;
    }
    assert(cs@.skip(i as int) =~= Seq::<char>::empty());
    assert(out@ + Seq::<char>::empty() =~= out@);
    out
}

/// The error text for a run that exited unsuccessfully with `status`, from
/// what it wrote to stderr.
pub fn exit_message(status: &str, stderr: &str) -> (r: String)
    ensures
        r@ == exit_message_text(status@, stderr@),
{
    let cs = chars_of(stderr);
    let mut head: Vec<char> = Vec::new();
    let mut i: usize = 0;
    while i < cs.len() && i < 300
        invariant
            i <= cs@.len(),
            i <= 300,
            head@ == cs@.take(i as int),
        decreases cs@.len() - i,
    {
        head.push(cs[i]);
        assert(head@ =~= cs@.take(i + 1));
        i += 1;
    }
    let mut m = "obscura exited ".to_owned();
    push_str_chars(&mut m, status);
    push_str_chars(&mut m, ": ");
    push_chars(&mut m, head.as_slice());
    m
}

impl ObscuraRunner {
    /// A runner for the binary at `binary`.
    pub fn new(binary: &str) -> (r: ObscuraRunner)
        ensures
            r.binary@ == binary@,
    {
        ObscuraRunner { binary: binary.to_owned() }
    }

    /// The arguments to pass to the binary to fetch `url` with stealth mode and
    /// evaluate `script` after `wait_secs` seconds.
    pub fn eval_args(&self, url: &str, script: &str, wait_secs: u64) -> (r: Vec<String>)
        ensures
            strings_view(r@) == eval_arguments(url@, script@, wait_secs),
    {
        let mut v: Vec<String> = Vec::new();
        v.push("fetch".to_owned());
        v.push(url.to_owned());
        v.push("--stealth".to_owned());
        v.push("--wait".to_owned());
        v.push(u64_text(wait_secs));
        v.push("--eval".to_owned());
        v.push(script.to_owned());
        v.push("--quiet".to_owned());
        assert(strings_view(v@) =~= eval_arguments(url@, script@, wait_secs));
        v
    }

    /// From the output of a run, the first line (trimmed) that starts with
    /// `[` or `{`, i.e. the JSON the script printed; when there is none, an
    /// error holding the start of the output.
    pub fn eval_json(&self, raw_output: &str) -> (r: Result<String, String>)
        ensures
            match first_json_line_in(lines_of(raw_output@)) {
                Some(j) => r matches Ok(x) && x@ == j,
                None => r matches Err(e) && e@ == no_json_message(raw_output@),
            },
    {
        let ls = lines(raw_output);
        let mut i: usize = 0;
        assert(strings_view(ls@).skip(0) =~= strings_view(ls@));
        while i < ls.len()
            invariant
                i <= ls@.len(),
                first_json_line_in(lines_of(raw_output@)) == first_json_line_in(strings_view(ls@).skip(i as int)),
                strings_view(ls@) == lines_of(raw_output@),
            decreases ls@.len() - i,
        {
            let t = trim(ls[i].as_str());
            let tc = crate::text::chars_of(t.as_str());
            proof {
                assert(strings_view(ls@).skip(i as int)[0] == ls@[i as int]@);
                assert(strings_view(ls@).skip(i as int).drop_first() =~= strings_view(ls@).skip(i + 1));
            }
            if tc.len() > 0 && (tc[0] == '[' || tc[0] == '{') {
                return Ok(t);
            }
            i += 1;
        }
        let mut e = "no JSON found in obscura output:\n".to_owned();
        let head = byte_prefix_chars(raw_output, 400);
        push_chars(&mut e, head.as_slice());
        Err(e)
    }
}

} // verus!
