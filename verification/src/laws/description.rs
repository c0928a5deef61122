//! Laws of session descriptions: what is read of an offer, and what an answer says.

use vstd::prelude::*;

use crate::laws::wording::{law_decimal_reads_back, law_digit};
use crate::text::{decimal, has_prefix, is_white, trim_end, trim_start, uint_value};
use crate::transport::sdp::{
    answer, answer_section, answer_sections, before_white, broken_lines, is_dropped,
    joined_by_blanks, last_direction, last_mid, line_direction, line_mid, line_ssrc, lines,
    lines_from, media_type_of, mirrored, named_ssrcs, offer_sections, place_of_char, raw_sections,
    section_of, up_to, with_port, AnswerTerms, Section,
};

verus! {

// ---------------------------------------------------------------------------
// Lines
// ---------------------------------------------------------------------------

/// A character is found at its first place from a given one on.
pub proof fn law_first_place(s: Seq<char>, c: char, i: int)
    requires
        0 <= i,
    ensures
        match place_of_char(s, c, i) {
            Some(k) => i <= k < s.len() && s[k] == c && forall|j: int|
                i <= j < k ==> #[trigger] s[j] != c,
            None => forall|j: int| i <= j < s.len() ==> #[trigger] s[j] != c,
        },
    decreases s.len() - i,
{
    if i < s.len() && s[i] != c {
        law_first_place(s, c, i + 1);
    }
}

/// A text is read line by line: up to the next line feed, without blanks at the end of
/// the line. What is behind the last one is a line if there is anything.
pub proof fn law_lines(s: Seq<char>, i: int, k: int)
    requires
        0 <= i <= k,
        forall|j: int| i <= j < k && j < s.len() ==> #[trigger] s[j] != '\n',
    ensures
        k < s.len() && s[k] == '\n' ==> lines_from(s, i) == seq![trim_end(s.subrange(i, k))]
            + lines_from(s, k + 1),
        i < k == s.len() ==> lines_from(s, i) == seq![trim_end(s.subrange(i, k))],
        lines_from(s, s.len() as int).len() == 0,
        lines(s) == lines_from(s, 0),
{
    law_first_place(s, '\n', i);
}

// ---------------------------------------------------------------------------
// What a line says
// ---------------------------------------------------------------------------

proof fn lemma_up_to(s: Seq<char>, c: char, k: int)
    requires
        0 <= k < s.len(),
        s[k] == c,
        forall|j: int| 0 <= j < k ==> #[trigger] s[j] != c,
    ensures
        up_to(s, c) == s.take(k),
{
    law_first_place(s, c, 0);
}

proof fn lemma_before_white(s: Seq<char>, k: int)
    requires
        0 <= k <= s.len(),
        k < s.len() ==> is_white(s[k]),
        forall|j: int| 0 <= j < k ==> !is_white(#[trigger] s[j]),
    ensures
        before_white(s) == s.take(k),
    decreases s.len(),
{
    if k > 0 {
        let rest = s.drop_first();
        assert forall|j: int| 0 <= j < k - 1 implies !is_white(#[trigger] rest[j]) by {
            assert(rest[j] == s[j + 1]);
        }
        lemma_before_white(rest, k - 1);
        assert(!is_white(s[0]));
        assert(s.take(k) =~= seq![s[0]] + rest.take(k - 1));
    } else {
        assert(before_white(s) =~= s.take(0));
    }
}

proof fn lemma_digits_plain(n: nat, i: int)
    requires
        0 <= i < decimal(n).len(),
    ensures
        48 <= decimal(n)[i] as u32 <= 57,
        !is_white(decimal(n)[i]),
        decimal(n)[i] != ':',
    decreases n,
{
    law_digit((n % 10) as int);
    if n >= 10 && i < decimal(n).len() - 1 {
        lemma_digits_plain(n / 10, i);
        assert(decimal(n)[i] == decimal(n / 10)[i]);
    }
}

/// A line about an SSRC, with the number in front of a blank and anything behind it,
/// names that SSRC.
pub proof fn law_ssrc_line(n: u32, rest: Seq<char>)
    ensures
        line_ssrc("a=ssrc:"@ + decimal(n as nat) + seq![' '] + rest) == Some(n),
{
    reveal_strlit("a=ssrc:");
    let d = decimal(n as nat);
    let tail = d + seq![' '] + rest;
    let line = "a=ssrc:"@ + d + seq![' '] + rest;
    assert(line.take(7) =~= "a=ssrc:"@);
    assert(line.subrange(7, line.len() as int) =~= tail);
    law_decimal_reads_back(n as nat);
    lemma_digits_plain(n as nat, 0);
    assert(tail[0] == d[0]);
    assert(trim_start(tail) == tail);
    assert forall|j: int| 0 <= j < d.len() implies !is_white(#[trigger] tail[j]) by {
        lemma_digits_plain(n as nat, j);
        assert(tail[j] == d[j]);
    }
    assert(is_white(tail[d.len() as int]));
    lemma_before_white(tail, d.len() as int);
    assert(tail.take(d.len() as int) =~= d);
    assert forall|j: int| 0 <= j < d.len() implies #[trigger] d[j] != ':' by {
        lemma_digits_plain(n as nat, j);
    }
    law_first_place(d, ':', 0);
    assert(up_to(d, ':') == d);
    assert(uint_value(d, u32::MAX as nat) == Some(n as nat));
}

/// The lines that give a direction. Without such a line media goes both ways; with
/// several the last one counts.
pub proof fn law_direction(body: Seq<Seq<char>>, line: Seq<char>)
    ensures
        last_direction(Seq::empty()) == "sendrecv"@,
        line_direction(line) is None ==> last_direction(body.push(line)) == last_direction(body),
        line_direction(line) matches Some(d) ==> last_direction(body.push(line)) == d,
        line_direction("a=sendrecv"@) == Some("sendrecv"@),
        line_direction("a=sendonly"@) == Some("sendonly"@),
        line_direction("a=recvonly"@) == Some("recvonly"@),
        line_direction("a=inactive"@) == Some("inactive"@),
{
    assert(body.push(line).drop_last() =~= body);
    assert(body.push(line).last() == line);
    lemma_direction_lines();
}

proof fn lemma_direction_lines()
    ensures
        line_direction("a=sendrecv"@) == Some("sendrecv"@),
        line_direction("a=sendonly"@) == Some("sendonly"@),
        line_direction("a=recvonly"@) == Some("recvonly"@),
        line_direction("a=inactive"@) == Some("inactive"@),
{
    reveal_strlit("a=sendrecv");
    reveal_strlit("a=sendonly");
    reveal_strlit("a=recvonly");
    reveal_strlit("a=inactive");
    let a = "a=sendrecv"@;
    let b = "a=sendonly"@;
    let c = "a=recvonly"@;
    let d = "a=inactive"@;
    assert(a.take(10) =~= a && b.take(10) =~= b && c.take(10) =~= c && d.take(10) =~= d);
    assert(a[6] == 'r' && b[6] == 'o' && a[2] == 's' && c[2] == 'r' && d[2] == 'i' && b[2] == 's');
}

/// The name of a section is what the last line about it says; a section without one has
/// none. Lines that only concern the sender are not passed on; all others are, unchanged
/// and in order.
pub proof fn law_section_lines(body: Seq<Seq<char>>, line: Seq<char>)
    ensures
        last_mid(Seq::empty()).len() == 0,
        line_mid(line) is None ==> last_mid(body.push(line)) == last_mid(body),
        line_mid(line) matches Some(m) ==> last_mid(body.push(line)) == m,
        mirrored(Seq::empty()).len() == 0,
        is_dropped(line) ==> mirrored(body.push(line)) == mirrored(body),
        !is_dropped(line) ==> mirrored(body.push(line)) == mirrored(body).push(line),
        named_ssrcs(Seq::empty()).len() == 0,
        line_ssrc(line) is None ==> named_ssrcs(body.push(line)) == named_ssrcs(body),
        line_ssrc(line) matches Some(x) ==> !named_ssrcs(body).contains(x) ==> named_ssrcs(
            body.push(line),
        ) == named_ssrcs(body).push(x),
        line_ssrc(line) matches Some(x) ==> named_ssrcs(body).contains(x) ==> named_ssrcs(
            body.push(line),
        ) == named_ssrcs(body),
{
    assert(body.push(line).drop_last() =~= body);
    assert(body.push(line).last() == line);
}

/// Credentials, fingerprints, candidates, directions and SSRCs of the sender are not
/// passed on, whatever follows in the line.
pub proof fn law_sender_lines_are_dropped(rest: Seq<char>)
    ensures
        is_dropped("a=ice-"@ + rest),
        is_dropped("a=fingerprint"@ + rest),
        is_dropped("a=setup"@ + rest),
        is_dropped("a=candidate"@ + rest),
        is_dropped("a=sendrecv"@ + rest),
        is_dropped("a=sendonly"@ + rest),
        is_dropped("a=recvonly"@ + rest),
        is_dropped("a=inactive"@ + rest),
        is_dropped("a=ssrc"@ + rest),
        is_dropped("a=ssrc-group"@ + rest),
        is_dropped("a=rtcp-mux"@ + rest),
        is_dropped("a=rtcp-rsize"@ + rest),
        is_dropped("c="@ + rest),
        is_dropped("a=msid"@ + rest),
{
    lemma_begins("a=ice-"@, rest);
    lemma_begins("a=fingerprint"@, rest);
    lemma_begins("a=setup"@, rest);
    lemma_begins("a=candidate"@, rest);
    lemma_begins("a=sendrecv"@, rest);
    lemma_begins("a=sendonly"@, rest);
    lemma_begins("a=recvonly"@, rest);
    lemma_begins("a=inactive"@, rest);
    lemma_begins("a=ssrc"@, rest);
    lemma_begins("a=ssrc-group"@, rest);
    lemma_begins("a=rtcp-mux"@, rest);
    lemma_begins("a=rtcp-rsize"@, rest);
    lemma_begins("c="@, rest);
    lemma_begins("a=msid"@, rest);
}

proof fn lemma_begins(p: Seq<char>, rest: Seq<char>)
    ensures
        has_prefix(p + rest, p),
{
    assert((p + rest).take(p.len() as int) =~= p);
}

/// Lines on codecs are passed on.
pub proof fn law_codec_lines_are_kept(rest: Seq<char>)
    ensures
        !is_dropped("a=rtpmap:"@ + rest),
        !is_dropped("b="@ + rest),
{
    let l = "a=rtpmap:"@ + rest;
    let b = "b="@ + rest;
    reveal_strlit("a=rtpmap:");
    reveal_strlit("b=");
    lemma_unlike(l, b);
}

/// No line that begins so is one of those that are dropped.
proof fn lemma_unlike(l: Seq<char>, b: Seq<char>)
    requires
        l.len() >= 9 && l[0] == 'a' && l[2] == 'r' && l[3] == 't' && l[4] == 'p' && l[5] == 'm',
        b.len() >= 2 && b[0] == 'b',
    ensures
        !is_dropped(l),
        !is_dropped(b),
{
    reveal_strlit("a=ice-");
    reveal_strlit("a=fingerprint");
    reveal_strlit("a=setup");
    reveal_strlit("a=candidate");
    reveal_strlit("a=sendrecv");
    reveal_strlit("a=sendonly");
    reveal_strlit("a=recvonly");
    reveal_strlit("a=inactive");
    reveal_strlit("a=rtcp-mux");
    reveal_strlit("a=rtcp-rsize");
    reveal_strlit("c=");
    reveal_strlit("a=ssrc");
    reveal_strlit("a=ssrc-group");
    reveal_strlit("a=msid");
    lemma_differs(l, "a=ice-"@, 2);
    lemma_differs(l, "a=fingerprint"@, 2);
    lemma_differs(l, "a=setup"@, 2);
    lemma_differs(l, "a=candidate"@, 2);
    lemma_differs(l, "a=sendrecv"@, 2);
    lemma_differs(l, "a=sendonly"@, 2);
    lemma_differs(l, "a=recvonly"@, 3);
    lemma_differs(l, "a=inactive"@, 2);
    lemma_differs(l, "a=rtcp-mux"@, 4);
    lemma_differs(l, "a=rtcp-rsize"@, 4);
    lemma_differs(l, "c="@, 0);
    lemma_differs(l, "a=ssrc"@, 2);
    lemma_differs(l, "a=ssrc-group"@, 2);
    lemma_differs(l, "a=msid"@, 2);
    lemma_differs(b, "a=ice-"@, 0);
    lemma_differs(b, "a=fingerprint"@, 0);
    lemma_differs(b, "a=setup"@, 0);
    lemma_differs(b, "a=candidate"@, 0);
    lemma_differs(b, "a=sendrecv"@, 0);
    lemma_differs(b, "a=sendonly"@, 0);
    lemma_differs(b, "a=recvonly"@, 0);
    lemma_differs(b, "a=inactive"@, 0);
    lemma_differs(b, "a=rtcp-mux"@, 0);
    lemma_differs(b, "a=rtcp-rsize"@, 0);
    lemma_differs(b, "c="@, 0);
    lemma_differs(b, "a=ssrc"@, 0);
    lemma_differs(b, "a=ssrc-group"@, 0);
    lemma_differs(b, "a=msid"@, 0);
}

proof fn lemma_differs(s: Seq<char>, p: Seq<char>, i: int)
    requires
        0 <= i < p.len(),
        i < s.len(),
        s[i] != p[i],
    ensures
        !has_prefix(s, p),
{
    if has_prefix(s, p) {
        assert(s.take(p.len() as int)[i] == s[i]);
    }
}

/// A section begins at each line of media, and all lines up to the next one are its
/// own; what is before the first is of no section.
pub proof fn law_sections(ls: Seq<Seq<char>>, n: int)
    requires
        0 < n <= ls.len(),
    ensures
        raw_sections(ls, 0).len() == 0,
        ({
            let before = raw_sections(ls, n - 1);
            let all = raw_sections(ls, n);
            let line = ls[n - 1];
            let media = line.len() >= 2 && line[0] == 'm' && line[1] == '=';
            &&& media ==> all.len() == before.len() + 1 && all.drop_last() == before
                && all.last().0 == line && all.last().1.len() == 0
            &&& !media && before.len() == 0 ==> all.len() == 0
            &&& !media && before.len() > 0 ==> all.len() == before.len() && all.drop_last()
                == before.drop_last() && all.last().0 == before.last().0 && all.last().1
                == before.last().1.push(line)
        }),
{
    reveal_strlit("m=");
    let before = raw_sections(ls, n - 1);
    let all = raw_sections(ls, n);
    let line = ls[n - 1];
    if line.len() >= 2 && line[0] == 'm' && line[1] == '=' {
        assert(line.take(2) =~= "m="@);
        assert(all.drop_last() =~= before);
    } else {
        if has_prefix(line, "m="@) {
            assert(line.take(2)[0] == line[0] && line.take(2)[1] == line[1]);
        }
        if before.len() > 0 {
            assert(all.drop_last() =~= before.drop_last());
        }
    }
}

/// A section says what its lines say.
pub proof fn law_section(m_line: Seq<char>, body: Seq<Seq<char>>, rest: Seq<char>)
    ensures
        section_of(m_line, body).m_line == m_line,
        section_of(m_line, body).mid == last_mid(body),
        section_of(m_line, body).direction == last_direction(body),
        section_of(m_line, body).codec_lines == mirrored(body),
        section_of(m_line, body).ssrcs == named_ssrcs(body),
        section_of(m_line, body).has_rtcp_rsize <==> exists|i: int|
            0 <= i < body.len() && has_prefix(#[trigger] body[i], "a=rtcp-rsize"@),
        media_type_of("m=audio"@ + rest) == "audio"@,
        media_type_of("m=video"@ + rest) == "video"@,
{
    reveal_strlit("m=audio");
    reveal_strlit("m=video");
    lemma_begins("m=audio"@, rest);
    lemma_begins("m=video"@, rest);
    lemma_differs("m=video"@ + rest, "m=audio"@, 2);
}

// ---------------------------------------------------------------------------
// The answer
// ---------------------------------------------------------------------------

/// The port of a line of media is the second of its words; the others stay.
pub proof fn law_port(media: Seq<char>, old_port: Seq<char>, proto: Seq<char>, rest: Seq<char>, port: u16)
    requires
        forall|i: int| 0 <= i < media.len() ==> #[trigger] media[i] != ' ',
        forall|i: int| 0 <= i < old_port.len() ==> #[trigger] old_port[i] != ' ',
        forall|i: int| 0 <= i < proto.len() ==> #[trigger] proto[i] != ' ',
    ensures
        with_port(
            media + seq![' '] + old_port + seq![' '] + proto + seq![' '] + rest,
            port,
        ) == media + seq![' '] + decimal(port as nat) + seq![' '] + proto + seq![' '] + rest,
        with_port(media + seq![' '] + old_port + seq![' '] + proto, port) == media + seq![' ']
            + old_port + seq![' '] + proto,
        with_port(media, port) == media,
{
    let s = media + seq![' '] + old_port + seq![' '] + proto + seq![' '] + rest;
    let i: int = media.len() as int;
    let j: int = i + 1 + old_port.len();
    let k: int = j + 1 + proto.len();
    assert(s[i] == ' ' && s[j] == ' ' && s[k] == ' ');
    assert forall|x: int| 0 <= x < i implies #[trigger] s[x] != ' ' by {
        assert(s[x] == media[x]);
    }
    assert forall|x: int| i < x < j implies #[trigger] s[x] != ' ' by {
        assert(s[x] == old_port[x - i - 1]);
    }
    assert forall|x: int| j < x < k implies #[trigger] s[x] != ' ' by {
        assert(s[x] == proto[x - j - 1]);
    }
    law_first_place(s, ' ', 0);
    law_first_place(s, ' ', i + 1);
    law_first_place(s, ' ', j + 1);
    assert(with_port(s, port) =~= media + seq![' '] + decimal(port as nat) + seq![' '] + proto
        + seq![' '] + rest);
    let t = media + seq![' '] + old_port + seq![' '] + proto;
    assert(t[i] == ' ' && t[j] == ' ');
    assert forall|x: int| 0 <= x < i implies #[trigger] t[x] != ' ' by {
        assert(t[x] == media[x]);
    }
    assert forall|x: int| i < x < j implies #[trigger] t[x] != ' ' by {
        assert(t[x] == old_port[x - i - 1]);
    }
    assert forall|x: int| j < x < t.len() implies #[trigger] t[x] != ' ' by {
        assert(t[x] == proto[x - j - 1]);
    }
    law_first_place(t, ' ', 0);
    law_first_place(t, ' ', i + 1);
    law_first_place(t, ' ', j + 1);
    law_first_place(media, ' ', 0);
}

/// Lines, each with a carriage return and a line feed behind it.
pub open spec fn in_lines(v: Seq<Seq<char>>, n: int) -> Seq<char>
    decreases n,
{
    if n <= 0 {
        Seq::empty()
    } else {
        in_lines(v, n - 1) + v[n - 1] + seq!['\r', '\n']
    }
}

proof fn lemma_in_lines(v: Seq<Seq<char>>, n: int)
    ensures
        broken_lines(v, n) == in_lines(v, n),
    decreases n,
{
    reveal_strlit("\r\n");
    assert("\r\n"@ =~= seq!['\r', '\n']);
    if n > 0 {
        lemma_in_lines(v, n - 1);
    }
}

/// The lines that open a section of an answer: its media at the server's port, where
/// the server is, its credentials and fingerprint, that it waits for the handshake, and
/// that control packets share the port.
pub open spec fn opening_lines(s: Section, t: AnswerTerms) -> Seq<Seq<char>> {
    seq![
        with_port(s.m_line, t.port),
        "c=IN IP4 "@ + t.ip,
        "a=ice-ufrag:"@ + t.ufrag,
        "a=ice-pwd:"@ + t.pwd,
        "a=fingerprint:"@ + t.fingerprint,
        "a=setup:passive"@,
        "a=rtcp-mux"@,
    ]
}

/// The lines that close it: the one candidate, and that there are no more.
pub open spec fn closing_lines(t: AnswerTerms) -> Seq<Seq<char>> {
    seq![
        "a=candidate:1 1 udp 2113937151 "@ + t.ip + " "@ + decimal(t.port as nat)
            + " typ host generation 0"@,
        "a=end-of-candidates"@,
    ]
}

/// A section of an answer, line by line: what opens it, the offer's own direction and
/// lines on codecs, what closes it.
pub proof fn law_answer_section(s: Section, t: AnswerTerms)
    ensures
        answer_section(s, t) == in_lines(opening_lines(s, t), 7) + (if s.has_rtcp_rsize {
            "a=rtcp-rsize"@ + seq!['\r', '\n']
        } else {
            Seq::empty()
        }) + ("a="@ + s.direction + seq!['\r', '\n']) + in_lines(
            s.codec_lines,
            s.codec_lines.len() as int,
        ) + in_lines(closing_lines(t), 2),
{
    lemma_opening(s, t);
    lemma_mirror(s);
    lemma_closing(t);
    let a = in_lines(opening_lines(s, t), 7);
    let r = if s.has_rtcp_rsize {
        "a=rtcp-rsize"@ + seq!['\r', '\n']
    } else {
        Seq::empty()
    };
    let d = "a="@ + s.direction + seq!['\r', '\n'];
    let c = in_lines(s.codec_lines, s.codec_lines.len() as int);
    let e = in_lines(closing_lines(t), 2);
    assert(a + (r + d + c) + e =~= a + r + d + c + e);
}

proof fn lemma_opening(s: Section, t: AnswerTerms)
    ensures
        crate::transport::sdp::section_start(s, t) == in_lines(opening_lines(s, t), 7),
{
    let br = seq!['\r', '\n'];
    let l = opening_lines(s, t);
    lemma_break_before("\r\nc=IN IP4 "@, "c=IN IP4 "@);
    lemma_break_before("\r\na=ice-ufrag:"@, "a=ice-ufrag:"@);
    lemma_break_before("\r\na=ice-pwd:"@, "a=ice-pwd:"@);
    lemma_break_before("\r\na=fingerprint:"@, "a=fingerprint:"@);
    lemma_literals();
    reveal_with_fuel(in_lines, 8);
    assert(in_lines(l, 7) =~= l[0] + br + l[1] + br + l[2] + br + l[3] + br + l[4] + br + l[5] + br
        + l[6] + br);
    assert(crate::transport::sdp::section_start(s, t) =~= l[0] + br + l[1] + br + l[2] + br + l[3]
        + br + l[4] + br + l[5] + br + l[6] + br);
}

proof fn lemma_break_before(a: Seq<char>, b: Seq<char>)
    requires
        a == "\r\nc=IN IP4 "@ && b == "c=IN IP4 "@ || a == "\r\na=ice-ufrag:"@ && b
            == "a=ice-ufrag:"@ || a == "\r\na=ice-pwd:"@ && b == "a=ice-pwd:"@ || a
            == "\r\na=fingerprint:"@ && b == "a=fingerprint:"@,
    ensures
        a == seq!['\r', '\n'] + b,
{
    reveal_strlit("\r\nc=IN IP4 ");
    reveal_strlit("c=IN IP4 ");
    reveal_strlit("\r\na=ice-ufrag:");
    reveal_strlit("a=ice-ufrag:");
    reveal_strlit("\r\na=ice-pwd:");
    reveal_strlit("a=ice-pwd:");
    reveal_strlit("\r\na=fingerprint:");
    reveal_strlit("a=fingerprint:");
    assert(a =~= seq!['\r', '\n'] + b);
}

proof fn lemma_literals()
    ensures
        "\r\na=setup:passive\r\na=rtcp-mux\r\n"@ == seq!['\r', '\n'] + "a=setup:passive"@ + seq![
            '\r',
            '\n',
        ] + "a=rtcp-mux"@ + seq!['\r', '\n'],
{
    reveal_strlit("\r\na=setup:passive\r\na=rtcp-mux\r\n");
    reveal_strlit("a=setup:passive");
    reveal_strlit("a=rtcp-mux");
    assert("\r\na=setup:passive\r\na=rtcp-mux\r\n"@ =~= seq!['\r', '\n'] + "a=setup:passive"@ + seq![
        '\r',
        '\n',
    ] + "a=rtcp-mux"@ + seq!['\r', '\n']);
}

proof fn lemma_mirror(s: Section)
    ensures
        crate::transport::sdp::section_mirror(s) == (if s.has_rtcp_rsize {
            "a=rtcp-rsize"@ + seq!['\r', '\n']
        } else {
            Seq::empty()
        }) + ("a="@ + s.direction + seq!['\r', '\n']) + in_lines(
            s.codec_lines,
            s.codec_lines.len() as int,
        ),
{
    reveal_strlit("a=rtcp-rsize\r\n");
    reveal_strlit("a=rtcp-rsize");
    reveal_strlit("\r\n");
    assert("a=rtcp-rsize\r\n"@ =~= "a=rtcp-rsize"@ + seq!['\r', '\n']);
    assert("\r\n"@ =~= seq!['\r', '\n']);
    lemma_in_lines(s.codec_lines, s.codec_lines.len() as int);
    let r = if s.has_rtcp_rsize {
        "a=rtcp-rsize"@ + seq!['\r', '\n']
    } else {
        Seq::empty()
    };
    let br = seq!['\r', '\n'];
    let c = in_lines(s.codec_lines, s.codec_lines.len() as int);
    assert(r + "a="@ + s.direction + br + c =~= r + ("a="@ + s.direction + br) + c);
}

proof fn lemma_closing(t: AnswerTerms)
    ensures
        crate::transport::sdp::section_end(t) == in_lines(closing_lines(t), 2),
{
    let br = seq!['\r', '\n'];
    let l = closing_lines(t);
    reveal_strlit(" typ host generation 0\r\na=end-of-candidates\r\n");
    reveal_strlit(" typ host generation 0");
    reveal_strlit("a=end-of-candidates");
    assert(" typ host generation 0\r\na=end-of-candidates\r\n"@ =~= " typ host generation 0"@ + br
        + "a=end-of-candidates"@ + br);
    reveal_with_fuel(in_lines, 3);
    assert(in_lines(l, 2) =~= l[0] + br + l[1] + br);
    assert(crate::transport::sdp::section_end(t) =~= l[0] + br + l[1] + br);
}

/// An answer has one section for each of the offer, in order, behind its head; the
/// names of the sections are given together, with a blank between them.
pub proof fn law_answer(sections: Seq<Section>, mids: Seq<Seq<char>>, t: AnswerTerms, n: int)
    requires
        0 < n <= sections.len(),
    ensures
        answer_sections(sections, t, 0).len() == 0,
        answer_sections(sections, t, n) == answer_sections(sections, t, n - 1) + answer_section(
            sections[n - 1],
            t,
        ),
        exists|head: Seq<char>| #[trigger]
            (head + answer_sections(sections, t, sections.len() as int)) == answer(
                sections,
                mids,
                t,
            ),
        1 < n <= mids.len() ==> joined_by_blanks(mids, n) == joined_by_blanks(mids, n - 1) + seq![
            ' ',
        ] + mids[n - 1],
        mids.len() > 0 ==> joined_by_blanks(mids, 1) == mids[0],
        joined_by_blanks(mids, 0).len() == 0,
{
    let head = "v=0\r\no=light-livechat "@ + decimal(t.session as nat) + " "@ + decimal(
        t.session as nat,
    ) + " IN IP4 "@ + t.ip + "\r\ns=-\r\nt=0 0\r\na=group:BUNDLE "@ + joined_by_blanks(
        mids,
        mids.len() as int,
    ) + "\r\na=ice-lite\r\n"@;
    assert(head + answer_sections(sections, t, sections.len() as int) == answer(sections, mids, t));
    if 1 < n <= mids.len() {
        assert(joined_by_blanks(mids, n) =~= joined_by_blanks(mids, n - 1) + seq![' ']
            + mids[n - 1]);
    }
}

/// The sections of an offer are those of its lines.
pub proof fn law_offer(offer: Seq<char>, i: int)
    requires
        0 <= i < offer_sections(offer).len(),
    ensures
        ({
            let ls = lines(offer);
            let raw = raw_sections(ls, ls.len() as int);
            &&& offer_sections(offer).len() == raw.len()
            &&& offer_sections(offer)[i] == section_of(raw[i].0, raw[i].1)
        }),
{
}

} // verus!
