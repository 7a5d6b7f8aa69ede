//! Server-Sent Events: the response head and the text of events.

use vstd::prelude::*;
use vstd::utf8::encode_utf8;
use crate::date::{Date, CivilTime, http_text, lemma_http_text_ascii};
use crate::text::{chars_of, push_str, slice_chars, string_from_chars, lemma_ascii_encode};

verus! {

/// The segments of `s` between line feeds. There is always at least one;
/// a trailing line feed gives a final empty segment.
pub open spec fn split_lf(s: Seq<char>) -> Seq<Seq<char>>
    decreases s.len(),
{
    if s.len() == 0 {
        seq![Seq::empty()]
    } else {
        let r = split_lf(s.drop_last());
        if s.last() == '\n' {
            r.push(Seq::empty())
        } else {
            r.update(r.len() - 1, r.last().push(s.last()))
        }
    }
}

/// `s` without its trailing carriage returns.
pub open spec fn trim_cr(s: Seq<char>) -> Seq<char>
    decreases s.len(),
{
    if s.len() > 0 && s.last() == '\r' {
        trim_cr(s.drop_last())
    } else {
        s
    }
}

/// The lines of `s`: split on `\n`, each without its trailing `\r`s.
pub open spec fn lines_lf_spec(s: Seq<char>) -> Seq<Seq<char>> {
    split_lf(s).map_values(|l: Seq<char>| trim_cr(l))
}

/// Segments joined again, with a line feed between each two.
pub open spec fn join_lf(lines: Seq<Seq<char>>) -> Seq<char>
    decreases lines.len(),
{
    if lines.len() <= 1 {
        if lines.len() == 1 {
            lines[0]
        } else {
            Seq::empty()
        }
    } else {
        join_lf(lines.drop_last()) + seq!['\n'] + lines.last()
    }
}

/// Splitting yields at least one segment, none holding a line feed, and
/// joining the segments gives the text back.
pub proof fn lemma_split_lf(s: Seq<char>)
    ensures
        split_lf(s).len() >= 1,
        forall|i: int, j: int| 0 <= i < split_lf(s).len() && 0 <= j < split_lf(s)[i].len() ==> #[trigger] split_lf(s)[i][j] != '\n',
        join_lf(split_lf(s)) == s,
    decreases s.len(),
{
    if s.len() > 0 {
        let p = s.drop_last();
        lemma_split_lf(p);
        let r = split_lf(p);
        if s.last() == '\n' {
            assert(split_lf(s).drop_last() =~= r);
            assert(join_lf(split_lf(s)) =~= s);
        } else {
            let l = r.len() - 1;
            if l == 0 {
                assert(join_lf(split_lf(s)) =~= s);
            } else {
                let sp = split_lf(s);
                assert(sp.drop_last() =~= r.drop_last());
                assert(sp.last() == r.last().push(s.last()));
                assert(join_lf(r) == join_lf(r.drop_last()) + seq!['\n'] + r.last());
                assert(join_lf(sp) == join_lf(sp.drop_last()) + seq!['\n'] + sp.last());
                assert(p.push(s.last()) =~= s);
                assert(join_lf(sp) =~= s);
            }
        }
    }
}

/// Without a trailing carriage return there is nothing to trim.
proof fn lemma_trim_cr_plain(s: Seq<char>)
    requires
        forall|j: int| 0 <= j < s.len() ==> s[j] != '\r',
    ensures
        trim_cr(s) == s,
{
}

/// The lines of a text without carriage returns are its segments, and
/// joining them with line feeds gives the text back: sending a text as
/// `data:` fields loses nothing.
pub proof fn lemma_lines_lf_lossless(s: Seq<char>)
    requires
        forall|j: int| 0 <= j < s.len() ==> s[j] != '\r',
    ensures
        lines_lf_spec(s).len() >= 1,
        join_lf(lines_lf_spec(s)) == s,
{
    lemma_split_lf(s);
    lemma_split_lf_no_cr(s);
    let sp = split_lf(s);
    assert forall|i: int| 0 <= i < sp.len() implies trim_cr(#[trigger] sp[i]) == sp[i] by {
        lemma_trim_cr_plain(sp[i]);
    }
    assert(lines_lf_spec(s) =~= sp);
}

/// The number of line feeds in `s`.
pub open spec fn count_lf(s: Seq<char>) -> nat
    decreases s.len(),
{
    if s.len() == 0 {
        0
    } else {
        count_lf(s.drop_last()) + if s.last() == '\n' {
            1nat
        } else {
            0nat
        }
    }
}

proof fn lemma_split_lf_count(s: Seq<char>)
    ensures
        split_lf(s).len() == count_lf(s) + 1,
    decreases s.len(),
{
    if s.len() > 0 {
        lemma_split_lf_count(s.drop_last());
    }
}

proof fn lemma_trim_cr_end(s: Seq<char>)
    ensures
        trim_cr(s).len() == 0 || trim_cr(s).last() != '\r',
    decreases s.len(),
{
    if s.len() > 0 && s.last() == '\r' {
        lemma_trim_cr_end(s.drop_last());
    }
}

/// There is one line per line feed, plus one; no line holds a line feed or
/// ends in a carriage return.
pub proof fn lemma_lines_lf_shape(s: Seq<char>)
    ensures
        lines_lf_spec(s).len() == count_lf(s) + 1,
        forall|i: int, j: int| 0 <= i < lines_lf_spec(s).len() && 0 <= j < lines_lf_spec(s)[i].len() ==> #[trigger] lines_lf_spec(s)[i][j] != '\n',
        forall|i: int| 0 <= i < lines_lf_spec(s).len() ==> #[trigger] lines_lf_spec(s)[i].len() == 0 || lines_lf_spec(s)[i].last() != '\r',
{
    lemma_split_lf_count(s);
    lemma_split_lf(s);
    let ls = lines_lf_spec(s);
    let sp = split_lf(s);
    assert forall|i: int, j: int| 0 <= i < ls.len() && 0 <= j < ls[i].len() implies #[trigger] ls[i][j] != '\n' by {
        lemma_trim_cr_prefix(sp[i]);
        assert(ls[i] == trim_cr(sp[i]));
        assert(ls[i][j] == sp[i][j]);
    }
    assert forall|i: int| 0 <= i < ls.len() implies #[trigger] ls[i].len() == 0 || ls[i].last() != '\r' by {
        assert(ls[i] == trim_cr(sp[i]));
        lemma_trim_cr_end(sp[i]);
    }
}

/// Segments hold only characters of the text.
proof fn lemma_split_lf_no_cr(s: Seq<char>)
    requires
        forall|j: int| 0 <= j < s.len() ==> s[j] != '\r',
    ensures
        forall|i: int, j: int| 0 <= i < split_lf(s).len() && 0 <= j < split_lf(s)[i].len() ==> #[trigger] split_lf(s)[i][j] != '\r',
    decreases s.len(),
{
    if s.len() > 0 {
        lemma_split_lf(s.drop_last());
        lemma_split_lf_no_cr(s.drop_last());
    }
}

fn trim_cr_exec(seg: &Vec<char>) -> (r: Vec<char>)
    ensures
        r@ == trim_cr(seg@),
{
    let mut end = seg.len();
    assert(seg@.take(end as int) =~= seg@);
    while end > 0 && seg[end - 1] == '\r'
        invariant
            end <= seg@.len(),
            trim_cr(seg@) == trim_cr(seg@.take(end as int)),
        decreases end,
    {
        assert(seg@.take(end as int).drop_last() =~= seg@.take(end - 1));
        end = end - 1;
    }
    slice_chars(seg, 0, end)
}

/// Splits `s` into lines on `\n`, stripping trailing `\r`s from each.
///
/// Unlike `str::lines`, this always yields at least one segment (the empty
/// string gives `[""]`), and a trailing `\n` gives a final empty segment.
pub fn lines_lf(s: &str) -> (r: Vec<String>)
    ensures
        r@.len() == lines_lf_spec(s@).len(),
        forall|i: int| 0 <= i < r@.len() ==> #[trigger] r@[i]@ == lines_lf_spec(s@)[i],
{
    let c = chars_of(s);
    let mut done: Vec<Vec<char>> = Vec::new();
    let mut cur: Vec<char> = Vec::new();
    let mut i: usize = 0;
    while i < c.len()
        invariant
            i <= c@.len(),
            c@ == s@,
            split_lf(c@.take(i as int)).len() == done@.len() + 1,
            forall|k: int| 0 <= k < done@.len() ==> #[trigger] done@[k]@ == split_lf(c@.take(i as int))[k],
            cur@ == split_lf(c@.take(i as int)).last(),
        decreases c@.len() - i,
    {
        assert(c@.take(i + 1).drop_last() =~= c@.take(i as int));
        if c[i] == '\n' {
            let mut fresh: Vec<char> = Vec::new();
            std::mem::swap(&mut fresh, &mut cur);
            done.push(fresh);
        } else {
            cur.push(c[i]);
        }
        i = i + 1;
    }
    assert(c@.take(c@.len() as int) =~= c@);
    done.push(cur);
    let ghost sp = split_lf(s@);
    let mut r: Vec<String> = Vec::new();
    let mut k: usize = 0;
    while k < done.len()
        invariant
            k <= done@.len(),
            done@.len() == sp.len(),
            forall|j: int| 0 <= j < done@.len() ==> #[trigger] done@[j]@ == sp[j],
            sp == split_lf(s@),
            r@.len() == k,
            forall|j: int| 0 <= j < k ==> #[trigger] r@[j]@ == lines_lf_spec(s@)[j],
        decreases done@.len() - k,
    {
        let t = trim_cr_exec(&done[k]);
        r.push(string_from_chars(t.as_slice()));
        k = k + 1;
    }
    r
}

/// `data:` and the line, then a line feed, for each line.
pub open spec fn data_lines(lines: Seq<Seq<char>>) -> Seq<char>
    decreases lines.len(),
{
    if lines.len() == 0 {
        Seq::empty()
    } else {
        data_lines(lines.drop_last()) + "data:"@ + lines.last() + "\n"@
    }
}

/// The text of an event: its name in an `event:` line if it has one, each
/// line of the data in a `data:` line, then a blank line.
pub open spec fn event_spec(event: Option<Seq<char>>, data: Seq<char>) -> Seq<char> {
    let name_line = match event {
        Some(e) => "event:"@ + e + "\n"@,
        None => Seq::empty(),
    };
    name_line + data_lines(lines_lf_spec(data)) + "\n"@
}

/// Whether `s` holds a carriage return or a line feed.
pub open spec fn has_line_break(s: Seq<char>) -> bool {
    exists|i: int| 0 <= i < s.len() && (s[i] == '\r' || s[i] == '\n')
}

fn push_chars(out: &mut Vec<char>, s: &Vec<char>)
    ensures
        final(out)@ == old(out)@ + s@,
{
    let ghost start = out@;
    let mut i: usize = 0;
    while i < s.len()
        invariant
            i <= s@.len(),
            out@ == start + s@.take(i as int),
        decreases s@.len() - i,
    {
        out.push(s[i]);
        assert(s@.take(i + 1) =~= s@.take(i as int).push(s@[i as int]));
        i = i + 1;
    }
    assert(s@.take(s@.len() as int) =~= s@);
}

fn push_data_lines(out: &mut Vec<char>, data: &str)
    ensures
        final(out)@ == old(out)@ + data_lines(lines_lf_spec(data@)),
{
    let lines = lines_lf(data);
    let ghost ls = lines_lf_spec(data@);
    let ghost start = out@;
    let prefix = chars_of("data:");
    let nl = chars_of("\n");
    let mut i: usize = 0;
    assert(ls.take(0) =~= Seq::<Seq<char>>::empty());
    while i < lines.len()
        invariant
            i <= lines@.len(),
            lines@.len() == ls.len(),
            forall|j: int| 0 <= j < lines@.len() ==> #[trigger] lines@[j]@ == ls[j],
            prefix@ == "data:"@,
            nl@ == "\n"@,
            out@ == start + data_lines(ls.take(i as int)),
        decreases lines@.len() - i,
    {
        push_chars(out, &prefix);
        let line = chars_of(lines[i].as_str());
        push_chars(out, &line);
        push_chars(out, &nl);
        assert(ls.take(i + 1).drop_last() =~= ls.take(i as int));
        assert(out@ =~= start + data_lines(ls.take(i + 1)));
        i = i + 1;
    }
    assert(ls.take(lines@.len() as int) =~= ls);
}

/// The text of an unnamed event carrying `data`.
pub fn data_event(data: &str) -> (r: String)
    ensures
        r@ == event_spec(None, data@),
{
    let mut out: Vec<char> = Vec::new();
    push_data_lines(&mut out, data);
    let nl = chars_of("\n");
    push_chars(&mut out, &nl);
    assert(out@ =~= event_spec(None, data@));
    string_from_chars(out.as_slice())
}

/// The text of an event named `event` carrying `data`; an error if the
/// name holds a CR or LF, which would end the `event:` line early.
pub fn named_event(event: &str, data: &str) -> (r: Result<String, &'static str>)
    ensures
        has_line_break(event@) ==> r == Err::<String, &str>("SSE event name must not contain CR or LF"),
        !has_line_break(event@) ==> (r matches Ok(s) && s@ == event_spec(Some(event@), data@)),
{
    let e = chars_of(event);
    let mut i: usize = 0;
    while i < e.len()
        invariant
            i <= e@.len(),
            e@ == event@,
            forall|j: int| 0 <= j < i ==> e@[j] != '\r' && e@[j] != '\n',
        decreases e@.len() - i,
    {
        if e[i] == '\r' || e[i] == '\n' {
            return Err("SSE event name must not contain CR or LF");
        }
        i = i + 1;
    }
    let mut out: Vec<char> = Vec::new();
    let head = chars_of("event:");
    push_chars(&mut out, &head);
    push_chars(&mut out, &e);
    let nl = chars_of("\n");
    push_chars(&mut out, &nl);
    push_data_lines(&mut out, data);
    push_chars(&mut out, &nl);
    assert(out@ =~= event_spec(Some(event@), data@));
    Ok(string_from_chars(out.as_slice()))
}

/// `s` is a run of whole lines, each non-empty and ending in `\n`: it holds
/// no blank line.
pub open spec fn whole_lf_lines(s: Seq<char>) -> bool {
    &&& forall|j: int| 0 <= j && j + 1 < s.len() ==> !(#[trigger] s[j] == '\n' && s[j + 1] == '\n')
    &&& s.len() == 0 || (s[0] != '\n' && s.last() == '\n')
}

proof fn lemma_lf_lines_concat(a: Seq<char>, b: Seq<char>)
    requires
        whole_lf_lines(a),
        whole_lf_lines(b),
    ensures
        whole_lf_lines(a + b),
{
    let s = a + b;
    if a.len() == 0 {
        assert(s =~= b);
    } else if b.len() == 0 {
        assert(s =~= a);
    } else {
        assert(s[0] == a[0]);
        assert(s.last() == b.last());
        assert forall|j: int| 0 <= j && j + 1 < s.len() implies !(#[trigger] s[j] == '\n' && s[j + 1] == '\n') by {
            if j + 1 < a.len() {
                assert(s[j] == a[j] && s[j + 1] == a[j + 1]);
            } else if j >= a.len() {
                assert(s[j] == b[j - a.len()] && s[j + 1] == b[j + 1 - a.len()]);
            } else {
                assert(s[j + 1] == b[0]);
            }
        }
    }
}

proof fn lemma_lf_line(c: Seq<char>)
    requires
        c.len() > 0,
        forall|i: int| 0 <= i < c.len() ==> #[trigger] c[i] != '\n',
    ensures
        whole_lf_lines(c + "\n"@),
{
    reveal_strlit("\n");
    let s = c + "\n"@;
    assert(s[0] == c[0]);
    assert forall|j: int| 0 <= j && j + 1 < s.len() implies !(#[trigger] s[j] == '\n' && s[j + 1] == '\n') by {
        assert(s[j] == c[j]);
    }
}

proof fn lemma_trim_cr_prefix(s: Seq<char>)
    ensures
        trim_cr(s).len() <= s.len(),
        forall|i: int| 0 <= i < trim_cr(s).len() ==> #[trigger] trim_cr(s)[i] == s[i],
    decreases s.len(),
{
    if s.len() > 0 && s.last() == '\r' {
        lemma_trim_cr_prefix(s.drop_last());
    }
}

proof fn lemma_data_lines_whole(ls: Seq<Seq<char>>)
    requires
        forall|i: int, j: int| 0 <= i < ls.len() && 0 <= j < ls[i].len() ==> #[trigger] ls[i][j] != '\n',
    ensures
        whole_lf_lines(data_lines(ls)),
    decreases ls.len(),
{
    if ls.len() == 0 {
        assert(whole_lf_lines(data_lines(ls)));
    } else {
        let p = ls.drop_last();
        assert forall|i: int, j: int| 0 <= i < p.len() && 0 <= j < p[i].len() implies #[trigger] p[i][j] != '\n' by {
            assert(p[i] == ls[i]);
        }
        lemma_data_lines_whole(p);
        reveal_strlit("data:");
        let l = ls.last();
        let c = "data:"@ + l;
        assert forall|k: int| 0 <= k < c.len() implies #[trigger] c[k] != '\n' by {
            if k >= 5 {
                assert(c[k] == l[k - 5]);
                assert(ls[ls.len() - 1] == l);
            }
        }
        lemma_lf_line(c);
        assert(data_lines(ls) == data_lines(p) + (c + "\n"@));
        lemma_lf_lines_concat(data_lines(p), c + "\n"@);
    }
}

/// The text of an event ends with its one blank line: neither its name nor
/// its data can end it early or start another event with a blank line.
pub proof fn lemma_event_ends_once(event: Option<Seq<char>>, data: Seq<char>)
    requires
        event matches Some(e) ==> !has_line_break(e),
    ensures
        event_spec(event, data).len() >= 2,
        event_spec(event, data)[event_spec(event, data).len() - 2] == '\n',
        event_spec(event, data).last() == '\n',
        forall|j: int|
            0 <= j && j + 2 < event_spec(event, data).len() ==> !(#[trigger] event_spec(event, data)[j] == '\n'
                && event_spec(event, data)[j + 1] == '\n'),
{
    reveal_strlit("\n");
    reveal_strlit("event:");
    let ls = lines_lf_spec(data);
    let sp = split_lf(data);
    lemma_split_lf(data);
    assert forall|i: int, j: int| 0 <= i < ls.len() && 0 <= j < ls[i].len() implies #[trigger] ls[i][j] != '\n' by {
        lemma_trim_cr_prefix(sp[i]);
        assert(ls[i] == trim_cr(sp[i]));
        assert(ls[i][j] == sp[i][j]);
    }
    lemma_data_lines_whole(ls);
    let name_line = match event {
        Some(e) => "event:"@ + e + "\n"@,
        None => Seq::empty(),
    };
    assert(whole_lf_lines(name_line)) by {
        match event {
            Some(e) => {
                let c = "event:"@ + e;
                assert forall|k: int| 0 <= k < c.len() implies #[trigger] c[k] != '\n' by {
                    if k >= 6 {
                        assert(c[k] == e[k - 6]);
                        if e[k - 6] == '\n' {
                            assert(has_line_break(e));
                        }
                    }
                }
                lemma_lf_line(c);
                assert(name_line == c + "\n"@);
            },
            None => {},
        }
    }
    let body = name_line + data_lines(ls);
    lemma_lf_lines_concat(name_line, data_lines(ls));
    assert(ls.len() >= 1);
    assert(data_lines(ls).len() > 0);
    let s = event_spec(event, data);
    assert(s == body + "\n"@);
    assert forall|j: int| 0 <= j && j + 2 < s.len() implies !(#[trigger] s[j] == '\n' && s[j + 1] == '\n') by {
        assert(s[j] == body[j] && s[j + 1] == body[j + 1]);
    }
}

/// The head of a Server-Sent Events response sent at `date`.
pub open spec fn sse_head_spec(date: CivilTime) -> Seq<u8> {
    encode_utf8("HTTP/1.1 200 OK\r\nDate: "@) + http_text(date) + encode_utf8(
        "\r\nContent-Type: text/event-stream\r\nCache-Control: no-cache\r\nConnection: close\r\n\r\n"@,
    )
}

/// Builds the head of a Server-Sent Events response.
pub fn sse_head(date: &Date) -> (out: Vec<u8>)
    ensures
        out@ == sse_head_spec(date@),
{
    let mut out: Vec<u8> = Vec::new();
    push_str(&mut out, "HTTP/1.1 200 OK\r\nDate: ");
    let d = date.http();
    push_str(&mut out, d.as_str());
    proof {
        lemma_http_text_ascii(date@);
        lemma_ascii_encode(d@, http_text(date@));
    }
    push_str(&mut out, "\r\nContent-Type: text/event-stream\r\nCache-Control: no-cache\r\nConnection: close\r\n\r\n");
    out
}

} // verus!
