//! SDP offers and answers: an offer is taken apart into its media sections, and
//! the answer mirrors them with the credentials, the fingerprint and the address
//! of the server.

use vstd::prelude::*;

use crate::clock::wall_clock_ms;
use crate::signaling::message::texts_of;
use crate::text::{
    chars_of, decimal, has_prefix, is_white, owned, parse_uint, push_chars, push_decimal, push_str,
    starts_with, string_of, sub_chars, trim, trim_end, trim_start, trimmed, uint_value, white,
};

verus! {

// ---------------------------------------------------------------------------
// Types
// ---------------------------------------------------------------------------

#[derive(Debug)]
pub struct ParsedOffer {
    pub sections: Vec<MediaSection>,
    pub bundle_mids: Vec<String>,
}

/// A media section.
#[derive(Debug)]
pub struct MediaSection {
    /// The identifier under which the section is bundled.
    pub mid: String,
    /// "audio", "video" or "unknown".
    pub media_type: String,
    /// The line with which the section starts.
    pub m_line: String,
    /// The lines that the answer mirrors.
    pub codec_lines: Vec<String>,
    /// "sendrecv", "sendonly", "recvonly" or "inactive".
    pub direction: String,
    pub has_rtcp_rsize: bool,
    /// The SSRCs that the section names, each once.
    pub ssrcs: Vec<u32>,
}

#[derive(Debug)]
pub enum SdpError {
    /// There is no media section.
    NoMediaSection,
    ParseError(String),
}

impl SdpError {
    pub fn message(&self) -> (r: String)
        ensures
            r@ == (match self {
                SdpError::NoMediaSection => "no media section in SDP offer"@,
                SdpError::ParseError(msg) => "SDP parse error: "@ + msg@,
            }),
    {
        match self {
            SdpError::NoMediaSection => owned("no media section in SDP offer"),
            SdpError::ParseError(msg) => {
                let mut out: Vec<char> = Vec::new();
                push_str(&mut out, "SDP parse error: ");
                push_str(&mut out, msg.as_str());
                assert(out@ =~= "SDP parse error: "@ + msg@);
                string_of(out)
            },
        }
    }
}

/// What a media section says.
#[verifier::ext_equal]
pub struct Section {
    pub mid: Seq<char>,
    pub media_type: Seq<char>,
    pub m_line: Seq<char>,
    pub codec_lines: Seq<Seq<char>>,
    pub direction: Seq<char>,
    pub has_rtcp_rsize: bool,
    pub ssrcs: Seq<u32>,
}

impl View for MediaSection {
    type V = Section;

    open spec fn view(&self) -> Section {
        Section {
            mid: self.mid@,
            media_type: self.media_type@,
            m_line: self.m_line@,
            codec_lines: texts_of(self.codec_lines@),
            direction: self.direction@,
            has_rtcp_rsize: self.has_rtcp_rsize,
            ssrcs: self.ssrcs@,
        }
    }
}

pub open spec fn sections_of(v: Seq<MediaSection>) -> Seq<Section> {
    v.map_values(|s: MediaSection| s@)
}

// ---------------------------------------------------------------------------
// Lines
// ---------------------------------------------------------------------------

/// The place of the first `c` from `i` on.
pub open spec fn place_of_char(s: Seq<char>, c: char, i: int) -> Option<int>
    decreases s.len() - i,
{
    if i < 0 || i >= s.len() {
        None
    } else if s[i] == c {
        Some(i)
    } else {
        place_of_char(s, c, i + 1)
    }
}

fn find_char(s: &Vec<char>, c: char, from: usize) -> (r: Option<usize>)
    requires
        from <= s@.len(),
    ensures
        match r {
            Some(i) => place_of_char(s@, c, from as int) == Some(i as int) && from <= i < s@.len()
                && s@[i as int] == c,
            None => place_of_char(s@, c, from as int) is None,
        },
{
    let mut i: usize = from;
    while i < s.len()
        invariant
            from <= i <= s@.len(),
            place_of_char(s@, c, from as int) == place_of_char(s@, c, i as int),
        decreases s@.len() - i,
    {
        if s[i] == c {
            return Some(i);
        }
        i += 1;
    }
    None
}

/// The lines from `i` on, each without its line break and the white space before
/// it. After a last line break there is no further line.
pub open spec fn lines_from(s: Seq<char>, i: int) -> Seq<Seq<char>>
    decreases s.len() - i,
{
    if i < 0 || i >= s.len() {
        Seq::empty()
    } else {
        match place_of_char(s, '\n', i) {
            Some(k) => if k < i || k >= s.len() {
                Seq::empty()
            } else {
                seq![trim_end(s.subrange(i, k))] + lines_from(s, k + 1)
            },
            None => seq![trim_end(s.subrange(i, s.len() as int))],
        }
    }
}

pub open spec fn lines(s: Seq<char>) -> Seq<Seq<char>> {
    lines_from(s, 0)
}

fn trim_end_of(s: &Vec<char>, from: usize, to: usize) -> (r: Vec<char>)
    requires
        from <= to <= s@.len(),
    ensures
        r@ == trim_end(s@.subrange(from as int, to as int)),
{
    let mut end: usize = to;
    while end > from && white(s[end - 1])
        invariant
            from <= end <= to <= s@.len(),
            trim_end(s@.subrange(from as int, to as int)) == trim_end(
                s@.subrange(from as int, end as int),
            ),
        decreases end,
    {
        proof {
            let t = s@.subrange(from as int, end as int);
            assert(t.drop_last() =~= s@.subrange(from as int, end - 1));
        }
        end -= 1;
    }
    sub_chars(s, from, end)
}

pub open spec fn char_lines(v: Seq<Vec<char>>) -> Seq<Seq<char>> {
    v.map_values(|l: Vec<char>| l@)
}

fn split_lines(s: &Vec<char>) -> (r: Vec<Vec<char>>)
    ensures
        char_lines(r@) == lines(s@),
{
    let mut out: Vec<Vec<char>> = Vec::new();
    let n: usize = s.len();
    let mut i: usize = 0;
    assert(char_lines(out@) + lines(s@) =~= lines(s@));
    while i < n
        invariant
            i <= n == s@.len(),
            char_lines(out@) + lines_from(s@, i as int) == lines(s@),
        decreases n - i,
    {
        let ghost before = out@;
        let ghost start = i as int;
        let (end, next): (usize, usize) = match find_char(s, '\n', i) {
            Some(k) => (k, k + 1),
            None => (n, n),
        };
        let line = trim_end_of(s, i, end);
        out.push(line);
        i = next;
        proof {
            assert(char_lines(out@) =~= char_lines(before).push(line@));
            assert(lines_from(s@, start) =~= seq![line@] + lines_from(s@, i as int));
            assert(char_lines(before) + (seq![line@] + lines_from(s@, i as int)) =~= char_lines(out@)
                + lines_from(s@, i as int));
        }
    }
    assert(char_lines(out@) + lines_from(s@, i as int) =~= char_lines(out@));
    out
}

// ---------------------------------------------------------------------------
// Offers
// ---------------------------------------------------------------------------

/// Lines that the server does not mirror: it has values of its own for them, or
/// none.
pub open spec fn is_dropped(line: Seq<char>) -> bool {
    ||| has_prefix(line, "a=ice-"@)
    ||| has_prefix(line, "a=fingerprint"@)
    ||| has_prefix(line, "a=setup"@)
    ||| has_prefix(line, "a=candidate"@)
    ||| has_prefix(line, "a=sendrecv"@)
    ||| has_prefix(line, "a=sendonly"@)
    ||| has_prefix(line, "a=recvonly"@)
    ||| has_prefix(line, "a=inactive"@)
    ||| has_prefix(line, "a=rtcp-mux"@)
    ||| has_prefix(line, "a=rtcp-rsize"@)
    ||| has_prefix(line, "c="@)
    ||| has_prefix(line, "a=ssrc"@)
    ||| has_prefix(line, "a=ssrc-group"@)
    ||| has_prefix(line, "a=msid"@)
}

fn dropped(line: &Vec<char>) -> (r: bool)
    ensures
        r == is_dropped(line@),
{
    starts_with(line, "a=ice-") || starts_with(line, "a=fingerprint") || starts_with(line, "a=setup")
        || starts_with(line, "a=candidate") || starts_with(line, "a=sendrecv") || starts_with(
        line,
        "a=sendonly",
    ) || starts_with(line, "a=recvonly") || starts_with(line, "a=inactive") || starts_with(
        line,
        "a=rtcp-mux",
    ) || starts_with(line, "a=rtcp-rsize") || starts_with(line, "c=") || starts_with(line, "a=ssrc")
        || starts_with(line, "a=ssrc-group") || starts_with(line, "a=msid")
}

/// The direction that a line gives.
pub open spec fn line_direction(line: Seq<char>) -> Option<Seq<char>> {
    if has_prefix(line, "a=sendrecv"@) {
        Some("sendrecv"@)
    } else if has_prefix(line, "a=recvonly"@) {
        Some("recvonly"@)
    } else if has_prefix(line, "a=sendonly"@) {
        Some("sendonly"@)
    } else if has_prefix(line, "a=inactive"@) {
        Some("inactive"@)
    } else {
        None
    }
}

/// The characters before the first white space.
pub open spec fn before_white(s: Seq<char>) -> Seq<char>
    decreases s.len(),
{
    if s.len() == 0 || is_white(s[0]) {
        Seq::empty()
    } else {
        seq![s[0]] + before_white(s.drop_first())
    }
}

/// The part before the first `c`; everything where there is none.
pub open spec fn up_to(s: Seq<char>, c: char) -> Seq<char> {
    match place_of_char(s, c, 0) {
        Some(i) => s.take(i),
        None => s,
    }
}

/// The SSRC that a line names: what stands between "a=ssrc:" and the next white
/// space or colon.
pub open spec fn line_ssrc(line: Seq<char>) -> Option<u32> {
    if !has_prefix(line, "a=ssrc:"@) {
        None
    } else {
        let rest = line.subrange("a=ssrc:"@.len() as int, line.len() as int);
        match uint_value(up_to(before_white(trim_start(rest)), ':'), u32::MAX as nat) {
            Some(v) => Some(v as u32),
            None => None,
        }
    }
}

/// The identifier that a line gives.
pub open spec fn line_mid(line: Seq<char>) -> Option<Seq<char>> {
    if has_prefix(line, "a=mid:"@) && !is_dropped(line) {
        Some(trimmed(line.subrange("a=mid:"@.len() as int, line.len() as int)))
    } else {
        None
    }
}

/// The last of the values that lines give, else a default.
pub open spec fn last_direction(body: Seq<Seq<char>>) -> Seq<char>
    decreases body.len(),
{
    if body.len() == 0 {
        "sendrecv"@
    } else {
        match line_direction(body.last()) {
            Some(d) => d,
            None => last_direction(body.drop_last()),
        }
    }
}

pub open spec fn last_mid(body: Seq<Seq<char>>) -> Seq<char>
    decreases body.len(),
{
    if body.len() == 0 {
        Seq::empty()
    } else {
        match line_mid(body.last()) {
            Some(m) => m,
            None => last_mid(body.drop_last()),
        }
    }
}

/// The SSRCs that lines name, each once, in order.
pub open spec fn named_ssrcs(body: Seq<Seq<char>>) -> Seq<u32>
    decreases body.len(),
{
    if body.len() == 0 {
        Seq::empty()
    } else {
        let before = named_ssrcs(body.drop_last());
        match line_ssrc(body.last()) {
            Some(s) => if before.contains(s) {
                before
            } else {
                before.push(s)
            },
            None => before,
        }
    }
}

/// The lines that are mirrored.
pub open spec fn mirrored(body: Seq<Seq<char>>) -> Seq<Seq<char>>
    decreases body.len(),
{
    if body.len() == 0 {
        Seq::empty()
    } else if is_dropped(body.last()) {
        mirrored(body.drop_last())
    } else {
        mirrored(body.drop_last()).push(body.last())
    }
}

pub open spec fn has_rsize(body: Seq<Seq<char>>) -> bool {
    exists|i: int| 0 <= i < body.len() && has_prefix(#[trigger] body[i], "a=rtcp-rsize"@)
}

/// The kind of media that a section starts with.
pub open spec fn media_type_of(m_line: Seq<char>) -> Seq<char> {
    if has_prefix(m_line, "m=audio"@) {
        "audio"@
    } else if has_prefix(m_line, "m=video"@) {
        "video"@
    } else {
        "unknown"@
    }
}

/// The section of a first line and the lines that follow.
pub open spec fn section_of(m_line: Seq<char>, body: Seq<Seq<char>>) -> Section {
    Section {
        mid: last_mid(body),
        media_type: media_type_of(m_line),
        m_line,
        codec_lines: mirrored(body),
        direction: last_direction(body),
        has_rtcp_rsize: has_rsize(body),
        ssrcs: named_ssrcs(body),
    }
}

/// The first `n` lines by sections: the first line of each, and the lines that
/// follow. What stands before the first section belongs to none.
pub open spec fn raw_sections(ls: Seq<Seq<char>>, n: int) -> Seq<(Seq<char>, Seq<Seq<char>>)>
    decreases n,
{
    if n <= 0 {
        Seq::empty()
    } else {
        let before = raw_sections(ls, n - 1);
        let line = ls[n - 1];
        if has_prefix(line, "m="@) {
            before.push((line, Seq::empty()))
        } else if before.len() == 0 {
            before
        } else {
            before.update(before.len() - 1, (before.last().0, before.last().1.push(line)))
        }
    }
}

/// The sections of an offer.
pub open spec fn offer_sections(offer: Seq<char>) -> Seq<Section> {
    let ls = lines(offer);
    raw_sections(ls, ls.len() as int).map_values(
        |r: (Seq<char>, Seq<Seq<char>>)| section_of(r.0, r.1),
    )
}

/// A section with one line more.
spec fn with_line(s: Section, line: Seq<char>) -> Section {
    Section {
        direction: match line_direction(line) {
            Some(d) => d,
            None => s.direction,
        },
        has_rtcp_rsize: s.has_rtcp_rsize || has_prefix(line, "a=rtcp-rsize"@),
        ssrcs: match line_ssrc(line) {
            Some(x) => if s.ssrcs.contains(x) {
                s.ssrcs
            } else {
                s.ssrcs.push(x)
            },
            None => s.ssrcs,
        },
        mid: match line_mid(line) {
            Some(m) => m,
            None => s.mid,
        },
        codec_lines: if is_dropped(line) {
            s.codec_lines
        } else {
            s.codec_lines.push(line)
        },
        ..s
    }
}

proof fn lemma_with_line(m_line: Seq<char>, body: Seq<Seq<char>>, line: Seq<char>)
    ensures
        section_of(m_line, body.push(line)) == with_line(section_of(m_line, body), line),
{
    let more = body.push(line);
    assert(more.drop_last() =~= body);
    assert(more.last() == line);
    assert(has_rsize(more) == (has_rsize(body) || has_prefix(line, "a=rtcp-rsize"@))) by {
        if has_rsize(body) {
            let i = choose|i: int| 0 <= i < body.len() && has_prefix(#[trigger] body[i], "a=rtcp-rsize"@);
            assert(more[i] == body[i]);
        }
        if has_prefix(line, "a=rtcp-rsize"@) {
            assert(more[body.len() as int] == line);
        }
        if has_rsize(more) {
            let i = choose|i: int| 0 <= i < more.len() && has_prefix(#[trigger] more[i], "a=rtcp-rsize"@);
            if i < body.len() {
                assert(body[i] == more[i]);
            }
        }
    }
}

fn parse_ssrc(line: &Vec<char>) -> (r: Option<u32>)
    ensures
        r == line_ssrc(line@),
{
    let head = "a=ssrc:";
    if !starts_with(line, head) {
        return None;
    }
    let n: usize = line.len();
    let from: usize = chars_of(head).len();
    let mut a: usize = from;
    let ghost rest = line@.subrange(from as int, n as int);
    while a < n && white(line[a])
        invariant
            from <= a <= n == line@.len(),
            trim_start(rest) == trim_start(line@.subrange(a as int, n as int)),
        decreases n - a,
    {
        proof {
            let t = line@.subrange(a as int, n as int);
            assert(t.drop_first() =~= line@.subrange(a + 1, n as int));
        }
        a += 1;
    }
    let ghost token = line@.subrange(a as int, n as int);
    let mut b: usize = a;
    assert(line@.subrange(a as int, a as int) + before_white(token) =~= before_white(token));
    while b < n && !white(line[b])
        invariant
            from <= a <= b <= n == line@.len(),
            before_white(token) == line@.subrange(a as int, b as int) + before_white(
                line@.subrange(b as int, n as int),
            ),
        decreases n - b,
    {
        proof {
            let t = line@.subrange(b as int, n as int);
            assert(t.drop_first() =~= line@.subrange(b + 1, n as int));
            assert(line@.subrange(a as int, b as int) + (seq![t[0]] + before_white(t.drop_first()))
                =~= line@.subrange(a as int, b + 1) + before_white(line@.subrange(b + 1, n as int)));
        }
        b += 1;
    }
    assert(before_white(line@.subrange(b as int, n as int)) =~= Seq::empty());
    let word = sub_chars(line, a, b);
    assert(word@ =~= before_white(trim_start(rest)));
    let digits = match find_char(&word, ':', 0) {
        Some(k) => sub_chars(&word, 0, k),
        None => sub_chars(&word, 0, word.len()),
    };
    assert(digits@ =~= up_to(word@, ':'));
    match parse_uint(&digits, u32::MAX as u64) {
        Some(v) => Some(v as u32),
        None => None,
    }
}

fn contains_ssrc(v: &Vec<u32>, x: u32) -> (r: bool)
    ensures
        r == v@.contains(x),
{
    let mut i: usize = 0;
    while i < v.len()
        invariant
            i <= v@.len(),
            forall|k: int| 0 <= k < i ==> v@[k] != x,
        decreases v@.len() - i,
    {
        if v[i] == x {
            assert(v@[i as int] == x);
            return true;
        }
        i += 1;
    }
    false
}

fn text_of_chars(s: &Vec<char>) -> (r: String)
    ensures
        r@ == s@,
{
    let c = sub_chars(s, 0, s.len());
    assert(c@ =~= s@);
    string_of(c)
}

fn direction_of_line(line: &Vec<char>) -> (r: Option<String>)
    ensures
        match r {
            Some(d) => line_direction(line@) == Some(d@),
            None => line_direction(line@) is None,
        },
{
    if starts_with(line, "a=sendrecv") {
        Some(owned("sendrecv"))
    } else if starts_with(line, "a=recvonly") {
        Some(owned("recvonly"))
    } else if starts_with(line, "a=sendonly") {
        Some(owned("sendonly"))
    } else if starts_with(line, "a=inactive") {
        Some(owned("inactive"))
    } else {
        None
    }
}

fn add_line(sec: &mut MediaSection, line: &Vec<char>)
    ensures
        final(sec)@ == with_line(old(sec)@, line@),
{
    if let Some(d) = direction_of_line(line) {
        sec.direction = d;
    }
    if starts_with(line, "a=rtcp-rsize") {
        sec.has_rtcp_rsize = true;
    }
    if let Some(x) = parse_ssrc(line) {
        if !contains_ssrc(&sec.ssrcs, x) {
            sec.ssrcs.push(x);
        }
    }
    if !dropped(line) {
        let head = "a=mid:";
        if starts_with(line, head) {
            let from: usize = chars_of(head).len();
            let value = sub_chars(line, from, line.len());
            sec.mid = string_of(trim(&value));
        }
        let ghost before = sec.codec_lines@;
        let text = text_of_chars(line);
        sec.codec_lines.push(text);
        assert(texts_of(sec.codec_lines@) =~= texts_of(before).push(line@));
    }
}

fn new_section(line: &Vec<char>) -> (r: MediaSection)
    ensures
        r@ == section_of(line@, Seq::empty()),
{
    let media_type: String = if starts_with(line, "m=audio") {
        owned("audio")
    } else if starts_with(line, "m=video") {
        owned("video")
    } else {
        owned("unknown")
    };
    let r = MediaSection {
        mid: String::new(),
        media_type,
        m_line: text_of_chars(line),
        codec_lines: Vec::new(),
        direction: owned("sendrecv"),
        has_rtcp_rsize: false,
        ssrcs: Vec::new(),
    };
    assert(r@ =~= section_of(line@, Seq::empty()));
    r
}

/// Takes an offer apart.
pub fn parse_offer(offer: &str) -> (r: Result<ParsedOffer, SdpError>)
    ensures
        match r {
            Ok(p) => {
                &&& offer_sections(offer@).len() > 0
                &&& sections_of(p.sections@) == offer_sections(offer@)
                &&& texts_of(p.bundle_mids@) == offer_sections(offer@).map_values(
                    |s: Section| s.mid,
                )
            },
            Err(e) => e is NoMediaSection && offer_sections(offer@).len() == 0,
        },
{
    let chars = chars_of(offer);
    let ls = split_lines(&chars);
    let ghost all = lines(offer@);
    let ghost f = |r: (Seq<char>, Seq<Seq<char>>)| section_of(r.0, r.1);
    let mut sections: Vec<MediaSection> = Vec::new();
    let mut i: usize = 0;
    assert(sections_of(sections@) =~= raw_sections(all, 0).map_values(f));
    while i < ls.len()
        invariant
            i <= ls@.len(),
            all == char_lines(ls@),
            f == (|r: (Seq<char>, Seq<Seq<char>>)| section_of(r.0, r.1)),
            sections_of(sections@) == raw_sections(all, i as int).map_values(f),
        decreases ls@.len() - i,
    {
        let line = &ls[i];
        let ghost raw = raw_sections(all, i as int);
        let ghost before = sections@;
        assert(all[i as int] == line@);
        assert(sections_of(before).len() == before.len());
        assert(sections_of(before).len() == raw.len());
        if starts_with(line, "m=") {
            sections.push(new_section(line));
            proof {
                let more = raw.push((line@, Seq::empty()));
                assert forall|q: int| 0 <= q < more.len() implies sections_of(sections@)[q]
                    == #[trigger] more.map_values(f)[q] by {
                    if q < raw.len() {
                        assert(sections_of(before)[q] == raw.map_values(f)[q]);
                    }
                }
                assert(sections_of(sections@) =~= more.map_values(f));
            }
        } else if sections.len() > 0 {
            let k: usize = sections.len() - 1;
            proof {
                assert(sections_of(before)[k as int] == before[k as int]@);
                assert(raw.map_values(f)[k as int] == section_of(raw[k as int].0, raw[k as int].1));
                lemma_with_line(raw[k as int].0, raw[k as int].1, line@);
            }
            add_line(&mut sections[k], line);
            proof {
                let more = raw_sections(all, i + 1);
                assert forall|q: int| 0 <= q < more.len() implies sections_of(sections@)[q]
                    == #[trigger] more.map_values(f)[q] by {
                    assert(sections_of(before)[q] == raw.map_values(f)[q]);
                }
                assert(sections_of(sections@) =~= more.map_values(f));
            }
        }
        i += 1;
    }
    assert(sections_of(sections@).len() == sections@.len());
    if sections.len() == 0 {
        return Err(SdpError::NoMediaSection);
    }
    let mut bundle_mids: Vec<String> = Vec::new();
    let ghost g = |s: Section| s.mid;
    let mut k: usize = 0;
    assert(texts_of(bundle_mids@) =~= sections_of(sections@).take(0).map_values(g));
    while k < sections.len()
        invariant
            k <= sections@.len(),
            g == (|s: Section| s.mid),
            texts_of(bundle_mids@) == sections_of(sections@).take(k as int).map_values(g),
        decreases sections@.len() - k,
    {
        let ghost before = bundle_mids@;
        let ghost parts = sections_of(sections@);
        bundle_mids.push(sections[k].mid.clone());
        k += 1;
        proof {
            assert(texts_of(bundle_mids@) =~= texts_of(before).push(parts[k - 1].mid));
            assert(parts.take(k as int) =~= parts.take(k - 1).push(parts[k - 1]));
            assert(parts.take(k as int).map_values(g) =~= parts.take(k - 1).map_values(g).push(
                parts[k - 1].mid,
            ));
        }
    }
    assert(sections_of(sections@).take(k as int) =~= sections_of(sections@));
    Ok(ParsedOffer { sections, bundle_mids })
}

/// Nothing of the client that the server has to replace is mirrored: no
/// credentials, fingerprints, candidates, SSRCs or stream names.
pub proof fn law_mirrored_lines_are_clean(body: Seq<Seq<char>>, i: int)
    requires
        0 <= i < mirrored(body).len(),
    ensures
        !is_dropped(mirrored(body)[i]),
    decreases body.len(),
{
    let rest = mirrored(body.drop_last());
    if i < rest.len() {
        law_mirrored_lines_are_clean(body.drop_last(), i);
    }
}

/// Every SSRC that a section names is found once.
pub proof fn law_ssrcs_are_distinct(body: Seq<Seq<char>>)
    ensures
        named_ssrcs(body).no_duplicates(),
        forall|i: int|
            0 <= i < body.len() ==> (line_ssrc(#[trigger] body[i]) matches Some(s)
                ==> named_ssrcs(body).contains(s)),
    decreases body.len(),
{
    if body.len() > 0 {
        let rest = body.drop_last();
        law_ssrcs_are_distinct(rest);
        let before = named_ssrcs(rest);
        let after = named_ssrcs(body);
        assert forall|x: u32| before.contains(x) implies #[trigger] after.contains(x) by {
            let k = choose|k: int| 0 <= k < before.len() && before[k] == x;
            assert(after[k] == x);
        }
        assert forall|i: int| 0 <= i < body.len() implies (line_ssrc(#[trigger] body[i]) matches Some(s)
            ==> after.contains(s)) by {
            if i < rest.len() {
                assert(rest[i] == body[i]);
                if line_ssrc(body[i]) is Some {
                    assert(before.contains(line_ssrc(rest[i])->0));
                    assert(after.contains(line_ssrc(body[i])->0));
                }
            } else if line_ssrc(body[i]) is Some {
                let s = line_ssrc(body[i])->0;
                if !before.contains(s) {
                    assert(after[before.len() as int] == s);
                } else {
                    assert(after.contains(s));
                }
            }
        }
    }
}

// ---------------------------------------------------------------------------
// Answers
// ---------------------------------------------------------------------------

/// A first line with another port: what stands between the first two blanks is
/// replaced, if there are three.
pub open spec fn with_port(m_line: Seq<char>, port: u16) -> Seq<char> {
    match place_of_char(m_line, ' ', 0) {
        None => m_line,
        Some(i) => match place_of_char(m_line, ' ', i + 1) {
            None => m_line,
            Some(j) => match place_of_char(m_line, ' ', j + 1) {
                None => m_line,
                Some(_) => m_line.take(i).push(' ') + decimal(port as nat) + m_line.subrange(
                    j,
                    m_line.len() as int,
                ),
            },
        },
    }
}

pub fn replace_m_line_port(m_line: &str, port: u16) -> (r: String)
    ensures
        r@ == with_port(m_line@, port),
{
    let chars = chars_of(m_line);
    let n: usize = chars.len();
    let i: usize = match find_char(&chars, ' ', 0) {
        Some(i) => i,
        None => {
            return owned(m_line);
        },
    };
    let j: usize = match find_char(&chars, ' ', i + 1) {
        Some(j) => j,
        None => {
            return owned(m_line);
        },
    };
    if find_char(&chars, ' ', j + 1).is_none() {
        return owned(m_line);
    }
    let mut out = sub_chars(&chars, 0, i);
    assert(out@ =~= m_line@.take(i as int));
    out.push(' ');
    push_decimal(&mut out, port as u64);
    let rest = sub_chars(&chars, j, n);
    push_chars(&mut out, &rest);
    string_of(out)
}

/// Texts with a blank between them.
pub open spec fn joined_by_blanks(v: Seq<Seq<char>>, n: int) -> Seq<char>
    decreases n,
{
    if n <= 0 {
        Seq::empty()
    } else if n == 1 {
        v[0]
    } else {
        joined_by_blanks(v, n - 1).push(' ') + v[n - 1]
    }
}

/// Lines, each with a line break.
pub open spec fn broken_lines(v: Seq<Seq<char>>, n: int) -> Seq<char>
    decreases n,
{
    if n <= 0 {
        Seq::empty()
    } else {
        broken_lines(v, n - 1) + v[n - 1] + "\r\n"@
    }
}

/// What an answer holds besides what it mirrors.
pub struct AnswerTerms {
    pub fingerprint: Seq<char>,
    pub ufrag: Seq<char>,
    pub pwd: Seq<char>,
    pub port: u16,
    pub ip: Seq<char>,
    pub session: u64,
}

pub open spec fn answer_terms(
    fingerprint: Seq<char>,
    ufrag: Seq<char>,
    pwd: Seq<char>,
    port: u16,
    ip: Seq<char>,
    session: u64,
) -> AnswerTerms {
    AnswerTerms { fingerprint, ufrag, pwd, port, ip, session }
}

/// The first lines of a section of the answer: address, credentials, fingerprint.
pub open spec fn section_start(s: Section, t: AnswerTerms) -> Seq<char> {
    with_port(s.m_line, t.port) + "\r\nc=IN IP4 "@ + t.ip + "\r\na=ice-ufrag:"@ + t.ufrag
        + "\r\na=ice-pwd:"@ + t.pwd + "\r\na=fingerprint:"@ + t.fingerprint
        + "\r\na=setup:passive\r\na=rtcp-mux\r\n"@
}

/// What a section mirrors.
pub open spec fn section_mirror(s: Section) -> Seq<char> {
    let rsize = if s.has_rtcp_rsize {
        "a=rtcp-rsize\r\n"@
    } else {
        Seq::empty()
    };
    rsize + "a="@ + s.direction + "\r\n"@ + broken_lines(
        s.codec_lines,
        s.codec_lines.len() as int,
    )
}

/// The last lines of a section of the answer: the one candidate.
pub open spec fn section_end(t: AnswerTerms) -> Seq<char> {
    "a=candidate:1 1 udp 2113937151 "@ + t.ip + " "@ + decimal(t.port as nat)
        + " typ host generation 0\r\na=end-of-candidates\r\n"@
}

/// A section of the answer.
pub open spec fn answer_section(s: Section, t: AnswerTerms) -> Seq<char> {
    section_start(s, t) + section_mirror(s) + section_end(t)
}

pub open spec fn answer_sections(v: Seq<Section>, t: AnswerTerms, n: int) -> Seq<char>
    decreases n,
{
    if n <= 0 {
        Seq::empty()
    } else {
        answer_sections(v, t, n - 1) + answer_section(v[n - 1], t)
    }
}

/// The answer: a header that bundles all sections, then the sections in the order
/// of the offer.
pub open spec fn answer(sections: Seq<Section>, mids: Seq<Seq<char>>, t: AnswerTerms) -> Seq<char> {
    "v=0\r\no=light-livechat "@ + decimal(t.session as nat) + " "@ + decimal(t.session as nat)
        + " IN IP4 "@ + t.ip + "\r\ns=-\r\nt=0 0\r\na=group:BUNDLE "@ + joined_by_blanks(
        mids,
        mids.len() as int,
    ) + "\r\na=ice-lite\r\n"@ + answer_sections(sections, t, sections.len() as int)
}

fn push_section_start(
    out: &mut Vec<char>,
    s: &MediaSection,
    fingerprint: &str,
    ice_ufrag: &str,
    ice_pwd: &str,
    udp_port: u16,
    local_ip: &str,
    t: Ghost<AnswerTerms>,
)
    requires
        t@.fingerprint == fingerprint@ && t@.ufrag == ice_ufrag@ && t@.pwd == ice_pwd@,
        t@.port == udp_port && t@.ip == local_ip@,
    ensures
        final(out)@ == old(out)@ + section_start(s@, t@),
{
    let m_line = replace_m_line_port(s.m_line.as_str(), udp_port);
    push_str(out, m_line.as_str());
    push_str(out, "\r\nc=IN IP4 ");
    push_str(out, local_ip);
    push_str(out, "\r\na=ice-ufrag:");
    push_str(out, ice_ufrag);
    push_str(out, "\r\na=ice-pwd:");
    push_str(out, ice_pwd);
    push_str(out, "\r\na=fingerprint:");
    push_str(out, fingerprint);
    push_str(out, "\r\na=setup:passive\r\na=rtcp-mux\r\n");
    assert(out@ =~= old(out)@ + section_start(s@, t@));
}

fn push_section_mirror(out: &mut Vec<char>, s: &MediaSection)
    ensures
        final(out)@ == old(out)@ + section_mirror(s@),
{
    if s.has_rtcp_rsize {
        push_str(out, "a=rtcp-rsize\r\n");
    }
    push_str(out, "a=");
    push_str(out, s.direction.as_str());
    push_str(out, "\r\n");
    let ghost head = out@;
    let mut i: usize = 0;
    assert(head + broken_lines(s@.codec_lines, 0) =~= head);
    while i < s.codec_lines.len()
        invariant
            i <= s.codec_lines@.len(),
            out@ == head + broken_lines(s@.codec_lines, i as int),
        decreases s.codec_lines@.len() - i,
    {
        push_str(out, s.codec_lines[i].as_str());
        push_str(out, "\r\n");
        i += 1;
        assert(out@ =~= head + broken_lines(s@.codec_lines, i as int));
    }
    assert(out@ =~= old(out)@ + section_mirror(s@));
}

fn push_section_end(out: &mut Vec<char>, udp_port: u16, local_ip: &str, t: Ghost<AnswerTerms>)
    requires
        t@.port == udp_port && t@.ip == local_ip@,
    ensures
        final(out)@ == old(out)@ + section_end(t@),
{
    push_str(out, "a=candidate:1 1 udp 2113937151 ");
    push_str(out, local_ip);
    push_str(out, " ");
    push_decimal(out, udp_port as u64);
    push_str(out, " typ host generation 0\r\na=end-of-candidates\r\n");
    assert(out@ =~= old(out)@ + section_end(t@));
}

/// `build_answer` with the number of the session.
pub fn build_answer_at(
    parsed: &ParsedOffer,
    fingerprint: &str,
    ice_ufrag: &str,
    ice_pwd: &str,
    udp_port: u16,
    local_ip: &str,
    session: u64,
) -> (r: String)
    ensures
        r@ == answer(
            sections_of(parsed.sections@),
            texts_of(parsed.bundle_mids@),
            answer_terms(fingerprint@, ice_ufrag@, ice_pwd@, udp_port, local_ip@, session),
        ),
{
    let ghost t = answer_terms(
        fingerprint@,
        ice_ufrag@,
        ice_pwd@,
        udp_port,
        local_ip@,
        session,
    );
    let ghost sections = sections_of(parsed.sections@);
    let ghost mids = texts_of(parsed.bundle_mids@);
    let mut out: Vec<char> = Vec::new();
    push_str(&mut out, "v=0\r\no=light-livechat ");
    push_decimal(&mut out, session);
    push_str(&mut out, " ");
    push_decimal(&mut out, session);
    push_str(&mut out, " IN IP4 ");
    push_str(&mut out, local_ip);
    push_str(&mut out, "\r\ns=-\r\nt=0 0\r\na=group:BUNDLE ");
    let ghost start = out@;
    let mut i: usize = 0;
    assert(start + joined_by_blanks(mids, 0) =~= start);
    while i < parsed.bundle_mids.len()
        invariant
            i <= parsed.bundle_mids@.len(),
            mids == texts_of(parsed.bundle_mids@),
            out@ == start + joined_by_blanks(mids, i as int),
        decreases parsed.bundle_mids@.len() - i,
    {
        if i > 0 {
            out.push(' ');
        }
        push_str(&mut out, parsed.bundle_mids[i].as_str());
        i += 1;
        assert(mids[i - 1] == parsed.bundle_mids@[i - 1]@);
        assert(out@ =~= start + joined_by_blanks(mids, i as int));
    }
    push_str(&mut out, "\r\na=ice-lite\r\n");
    let ghost head = out@;
    let mut k: usize = 0;
    assert(head + answer_sections(sections, t, 0) =~= head);
    while k < parsed.sections.len()
        invariant
            k <= parsed.sections@.len(),
            sections == sections_of(parsed.sections@),
            t.fingerprint == fingerprint@ && t.ufrag == ice_ufrag@ && t.pwd == ice_pwd@,
            t.port == udp_port && t.ip == local_ip@,
            out@ == head + answer_sections(sections, t, k as int),
        decreases parsed.sections@.len() - k,
    {
        let section = &parsed.sections[k];
        push_section_start(
            &mut out,
            section,
            fingerprint,
            ice_ufrag,
            ice_pwd,
            udp_port,
            local_ip,
            Ghost(t),
        );
        push_section_mirror(&mut out, section);
        push_section_end(&mut out, udp_port, local_ip, Ghost(t));
        k += 1;
        assert(out@ =~= head + answer_sections(sections, t, k as int));
    }
    assert(out@ =~= answer(sections, mids, t));
    string_of(out)
}

/// The answer to an offer. The session is numbered by the time.
pub fn build_answer(
    parsed: &ParsedOffer,
    fingerprint: &str,
    ice_ufrag: &str,
    ice_pwd: &str,
    udp_port: u16,
    local_ip: &str,
) -> (r: String)
    ensures
        exists|session: u64|
            r@ == answer(
                sections_of(parsed.sections@),
                texts_of(parsed.bundle_mids@),
                #[trigger] answer_terms(
                    fingerprint@,
                    ice_ufrag@,
                    ice_pwd@,
                    udp_port,
                    local_ip@,
                    session,
                ),
            ),
{
    let session: u64 = wall_clock_ms();
    build_answer_at(parsed, fingerprint, ice_ufrag, ice_pwd, udp_port, local_ip, session)
}

} // verus!
