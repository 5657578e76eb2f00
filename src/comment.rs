//! Documentation comments: turning `xs:documentation` text into comment lines.
use vstd::prelude::*;

verus! {

/// Longest payload, in UTF-8 bytes, of one wrapped structure comment line.
pub const WRAP_WIDTH: usize = 60;

/// Number of bytes that `c` takes in UTF-8.
pub open spec fn utf8_width(c: char) -> nat {
    if (c as u32) < 0x80 {
        1
    } else if (c as u32) < 0x800 {
        2
    } else if (c as u32) < 0x10000 {
        3
    } else {
        4
    }
}

/// Length in UTF-8 bytes of a character sequence.
pub open spec fn byte_len(cs: Seq<char>) -> nat
    decreases cs.len(),
{
    if cs.len() == 0 {
        0
    } else {
        byte_len(cs.drop_last()) + utf8_width(cs.last())
    }
}

/// Unicode `White_Space`, the property behind `char::is_whitespace`.
pub open spec fn is_white_space(c: char) -> bool {
    let u = c as u32;
    (0x9 <= u <= 0xd) || u == 0x20 || u == 0x85 || u == 0xa0 || u == 0x1680 || (0x2000 <= u
        <= 0x200a) || u == 0x2028 || u == 0x2029 || u == 0x202f || u == 0x205f || u == 0x3000
}

pub open spec fn trim_start(cs: Seq<char>) -> Seq<char>
    decreases cs.len(),
{
    if cs.len() > 0 && is_white_space(cs[0]) {
        trim_start(cs.drop_first())
    } else {
        cs
    }
}

pub open spec fn trim_end(cs: Seq<char>) -> Seq<char>
    decreases cs.len(),
{
    if cs.len() > 0 && is_white_space(cs.last()) {
        trim_end(cs.drop_last())
    } else {
        cs
    }
}

/// `cs` without leading and trailing white space.
pub open spec fn trim(cs: Seq<char>) -> Seq<char> {
    trim_end(trim_start(cs))
}

/// Number of characters before the first line feed of `cs` (all of them if none).
pub open spec fn line_len(cs: Seq<char>) -> nat
    decreases cs.len(),
{
    if cs.len() == 0 || cs[0] == '\n' {
        0
    } else {
        1 + line_len(cs.drop_first())
    }
}

/// Number of leading characters of `cs` whose UTF-8 encoding fits in `room` bytes.
pub open spec fn fit(cs: Seq<char>, room: int) -> nat
    decreases cs.len(),
{
    if cs.len() == 0 || utf8_width(cs[0]) > room {
        0
    } else {
        1 + fit(cs.drop_first(), room - utf8_width(cs[0]))
    }
}

pub open spec fn comment_prefix() -> Seq<char> {
    seq!['/', '/', ' ']
}

/// One line of text as comment lines of at most `WRAP_WIDTH` payload bytes each,
/// every one of them ending with a line feed.
pub open spec fn wrap_line(cs: Seq<char>) -> Seq<char>
    decreases cs.len(),
{
    let k = fit(cs, WRAP_WIDTH as int);
    if cs.len() == 0 || k == 0 || k > cs.len() {
        seq![]
    } else {
        comment_prefix() + cs.take(k as int) + seq!['\n'] + wrap_line(cs.skip(k as int))
    }
}

/// One line of text as a single field comment, ending with two spaces.
pub open spec fn field_line(cs: Seq<char>) -> Seq<char> {
    comment_prefix() + cs + seq![' ', ' ']
}

/// What one trimmed documentation line becomes: structure comments drop lines of
/// two bytes or fewer and wrap the rest, field comments drop lines of one byte or
/// fewer and keep the rest on one line.
pub open spec fn render_line(line: Seq<char>, wrap: bool) -> Seq<char> {
    if wrap {
        if byte_len(line) > 2 {
            wrap_line(line)
        } else {
            seq![]
        }
    } else {
        if byte_len(line) > 1 {
            field_line(line)
        } else {
            seq![]
        }
    }
}

/// The comment made of all the lines of `doc`, in order.
pub open spec fn doc_comment(doc: Seq<char>, wrap: bool) -> Seq<char>
    decreases doc.len(),
{
    let k = line_len(doc);
    let here = render_line(trim(doc.take(k as int)), wrap);
    if k >= doc.len() {
        here
    } else {
        here + doc_comment(doc.skip(k + 1 as int), wrap)
    }
}

pub open spec fn doc_text(doc: Option<&str>) -> Seq<char> {
    match doc {
        Some(s) => s@,
        None => seq![],
    }
}

pub open spec fn structure_comment(doc: Seq<char>) -> Seq<char> {
    doc_comment(doc, true)
}

pub open spec fn field_comment(doc: Seq<char>) -> Seq<char> {
    doc_comment(doc, false)
}

/// Relies on `String::push`: appends one character.
#[verifier::external_body]
pub(crate) fn push_char(s: &mut String, c: char)
    ensures
        final(s)@ == old(s)@.push(c),
{
    s.push(c);
}

/// The characters of `s`, in order.
pub fn chars_of(s: &str) -> (r: Vec<char>)
    ensures
        r@ == s@,
{
    broadcast use vstd::string::axiom_spec_iter;

    let mut v: Vec<char> = Vec::new();
    for c in it: s.chars()
        invariant
            it.seq() == s@,
            v@ == it.seq().take(it.index()),
    {
        v.push(c);
        assert(v@ =~= it.seq().take(it.index() + 1));
    }
    assert(v@ =~= s@);
    v
}

pub fn utf8_width_of(c: char) -> (r: usize)
    ensures
        r == utf8_width(c),
{
    if (c as u32) < 0x80 {
        1
    } else if (c as u32) < 0x800 {
        2
    } else if (c as u32) < 0x10000 {
        3
    } else {
        4
    }
}

pub fn is_white_space_char(c: char) -> (r: bool)
    ensures
        r == is_white_space(c),
{
    let u = c as u32;
    (0x9 <= u && u <= 0xd) || u == 0x20 || u == 0x85 || u == 0xa0 || u == 0x1680 || (0x2000 <= u
        && u <= 0x200a) || u == 0x2028 || u == 0x2029 || u == 0x202f || u == 0x205f || u == 0x3000
}

proof fn lemma_fit_bounds(cs: Seq<char>, room: int)
    ensures
        fit(cs, room) <= cs.len(),
        cs.len() > 0 && room >= 4 ==> fit(cs, room) > 0,
    decreases cs.len(),
{
    if cs.len() > 0 && utf8_width(cs[0]) <= room {
        lemma_fit_bounds(cs.drop_first(), room - utf8_width(cs[0]));
    }
}

/// Bounds `(s, e)` of the trimmed text of `cs[lo..hi]`.
fn trim_bounds(cs: &Vec<char>, lo: usize, hi: usize) -> (r: (usize, usize))
    requires
        lo <= hi <= cs.len(),
    ensures
        lo <= r.0 <= r.1 <= hi,
        cs@.subrange(r.0 as int, r.1 as int) == trim(cs@.subrange(lo as int, hi as int)),
{
    let mut s: usize = lo;
    while s < hi && is_white_space_char(cs[s])
        invariant
            lo <= s <= hi <= cs.len(),
            trim_start(cs@.subrange(lo as int, hi as int)) == trim_start(
                cs@.subrange(s as int, hi as int),
            ),
        decreases hi - s,
    {
        assert(cs@.subrange(s as int, hi as int).drop_first() =~= cs@.subrange(
            s + 1,
            hi as int,
        ));
        s = s + 1;
    }
    let mut e: usize = hi;
    while e > s && is_white_space_char(cs[e - 1])
        invariant
            lo <= s <= e <= hi <= cs.len(),
            trim(cs@.subrange(lo as int, hi as int)) == trim_end(cs@.subrange(s as int, e as int)),
        decreases e - s,
    {
        assert(cs@.subrange(s as int, e as int).drop_last() =~= cs@.subrange(
            s as int,
            e - 1,
        ));
        e = e - 1;
    }
    (s, e)
}

/// Whether `cs[s..e]` takes more than `limit` bytes in UTF-8.
fn longer_than(cs: &Vec<char>, s: usize, e: usize, limit: usize) -> (r: bool)
    requires
        s <= e <= cs.len(),
    ensures
        r == (byte_len(cs@.subrange(s as int, e as int)) > limit),
{
    let mut n: usize = 0;
    let mut i: usize = s;
    while i < e
        invariant
            s <= i <= e <= cs.len(),
            n <= limit,
            n == byte_len(cs@.subrange(s as int, i as int)),
        decreases e - i,
    {
        assert(cs@.subrange(s as int, i + 1).drop_last() =~= cs@.subrange(s as int, i as int));
        let w = utf8_width_of(cs[i]);
        if w > limit - n {
            proof {
                lemma_byte_len_grows(cs@.subrange(s as int, e as int), (i + 1 - s) as int);
                assert(cs@.subrange(s as int, e as int).take((i + 1 - s) as int) =~= cs@.subrange(
                    s as int,
                    i + 1,
                ));
            }
            return true;
        }
        n = n + w;
        i = i + 1;
    }
    false
}

proof fn lemma_byte_len_grows(cs: Seq<char>, k: int)
    requires
        0 <= k <= cs.len(),
    ensures
        byte_len(cs.take(k)) <= byte_len(cs),
    decreases cs.len() - k,
{
    if k < cs.len() {
        lemma_byte_len_grows(cs, k + 1);
        assert(cs.take(k + 1).drop_last() =~= cs.take(k));
    } else {
        assert(cs.take(k) =~= cs);
    }
}

fn push_prefix(out: &mut String)
    ensures
        final(out)@ == old(out)@ + comment_prefix(),
{
    push_char(out, '/');
    push_char(out, '/');
    push_char(out, ' ');
    assert(final(out)@ =~= old(out)@ + comment_prefix());
}

/// Number of leading characters of `cs[s..e]` that fit in `WRAP_WIDTH` bytes.
fn fit_count(cs: &Vec<char>, s: usize, e: usize) -> (r: usize)
    requires
        s <= e <= cs.len(),
    ensures
        r == fit(cs@.subrange(s as int, e as int), WRAP_WIDTH as int),
{
    let ghost whole = cs@.subrange(s as int, e as int);
    let mut i: usize = s;
    let mut room: usize = WRAP_WIDTH;
    while i < e && utf8_width_of(cs[i]) <= room
        invariant
            s <= i <= e <= cs.len(),
            room <= WRAP_WIDTH,
            fit(whole, WRAP_WIDTH as int) == (i - s) + fit(
                cs@.subrange(i as int, e as int),
                room as int,
            ),
        decreases e - i,
    {
        assert(cs@.subrange(i as int, e as int).drop_first() =~= cs@.subrange(i + 1, e as int));
        room = room - utf8_width_of(cs[i]);
        i = i + 1;
    }
    i - s
}

/// Appends `cs[s..e]` to `out`.
pub(crate) fn push_range(out: &mut String, cs: &Vec<char>, s: usize, e: usize)
    requires
        s <= e <= cs.len(),
    ensures
        final(out)@ == old(out)@ + cs@.subrange(s as int, e as int),
{
    let mut i: usize = s;
    while i < e
        invariant
            s <= i <= e <= cs.len(),
            out@ == old(out)@ + cs@.subrange(s as int, i as int),
        decreases e - i,
    {
        push_char(out, cs[i]);
        assert(out@ =~= old(out)@ + cs@.subrange(s as int, i + 1));
        i = i + 1;
    }
}

/// Appends `wrap_line(cs[s..e])` to `out`.
fn push_wrapped(out: &mut String, cs: &Vec<char>, s: usize, e: usize)
    requires
        s <= e <= cs.len(),
    ensures
        final(out)@ == old(out)@ + wrap_line(cs@.subrange(s as int, e as int)),
{
    let mut i: usize = s;
    while i < e
        invariant
            s <= i <= e <= cs.len(),
            old(out)@ + wrap_line(cs@.subrange(s as int, e as int)) == out@ + wrap_line(
                cs@.subrange(i as int, e as int),
            ),
        decreases e - i,
    {
        let ghost rest = cs@.subrange(i as int, e as int);
        let k = fit_count(cs, i, e);
        proof {
            lemma_fit_bounds(rest, WRAP_WIDTH as int);
        }
        push_prefix(out);
        push_range(out, cs, i, i + k);
        push_char(out, '\n');
        assert(rest.take(k as int) =~= cs@.subrange(i as int, i + k));
        assert(rest.skip(k as int) =~= cs@.subrange(i + k, e as int));
        i = i + k;
    }
    assert(cs@.subrange(i as int, e as int) =~= Seq::<char>::empty());
    assert(out@ =~= old(out)@ + wrap_line(cs@.subrange(s as int, e as int)));
}

/// End of the line of `cs` that starts at `i`: the next line feed, or the end.
fn line_end(cs: &Vec<char>, i: usize) -> (j: usize)
    requires
        i <= cs.len(),
    ensures
        i <= j <= cs.len(),
        j - i == line_len(cs@.subrange(i as int, cs.len() as int)),
{
    let n = cs.len();
    let mut j: usize = i;
    while j < n && cs[j] != '\n'
        invariant
            i <= j <= n == cs.len(),
            line_len(cs@.subrange(i as int, n as int)) == (j - i) + line_len(
                cs@.subrange(j as int, n as int),
            ),
        decreases n - j,
    {
        assert(cs@.subrange(j as int, n as int).drop_first() =~= cs@.subrange(j + 1, n as int));
        j = j + 1;
    }
    j
}

/// `s` as comment lines of at most sixty bytes of text each, each line written as
/// `// `, the text and a line feed.
pub fn split_comment_line(s: &str) -> (r: String)
    ensures
        r@ == wrap_line(s@),
{
    let cs = chars_of(s);
    let mut out = String::new();
    push_wrapped(&mut out, &cs, 0, cs.len());
    assert(cs@.subrange(0, cs@.len() as int) =~= s@);
    assert(out@ =~= wrap_line(s@));
    out
}

/// Comment text for `doc`: wrapped structure comment lines when `wrap`, else
/// one-line field comments.
fn render_doc(doc: Option<&str>, wrap: bool) -> (r: String)
    ensures
        r@ == doc_comment(doc_text(doc), wrap),
{
    let cs: Vec<char> = match doc {
        Some(s) => chars_of(s),
        None => Vec::new(),
    };
    assert(cs@ =~= doc_text(doc));
    let n = cs.len();
    let mut out = String::new();
    let mut i: usize = 0;
    assert(cs@.subrange(0, n as int) =~= cs@);
    loop
        invariant_except_break
            out@ + doc_comment(cs@.subrange(i as int, n as int), wrap) == doc_comment(cs@, wrap),
        invariant
            i <= n == cs.len(),
            cs@ == doc_text(doc),
        ensures
            out@ == doc_comment(cs@, wrap),
        decreases n - i,
    {
        let ghost rest = cs@.subrange(i as int, n as int);
        let ghost before = out@;
        let j = line_end(&cs, i);
        let (s, e) = trim_bounds(&cs, i, j);
        assert(rest.take((j - i) as int) =~= cs@.subrange(i as int, j as int));
        if wrap {
            if longer_than(&cs, s, e, 2) {
                push_wrapped(&mut out, &cs, s, e);
            }
        } else {
            if longer_than(&cs, s, e, 1) {
                push_prefix(&mut out);
                push_range(&mut out, &cs, s, e);
                push_char(&mut out, ' ');
                push_char(&mut out, ' ');
            }
        }
        let ghost here = render_line(trim(cs@.subrange(i as int, j as int)), wrap);
        assert(out@ =~= before + here);
        if j == n {
            assert(out@ =~= doc_comment(cs@, wrap));
            break;
        }
        assert(rest.skip((j - i) + 1) =~= cs@.subrange(j + 1, n as int));
        assert(doc_comment(rest, wrap) == here + doc_comment(cs@.subrange(j + 1, n as int), wrap));
        assert(out@ + doc_comment(cs@.subrange(j + 1, n as int), wrap) =~= before
            + doc_comment(rest, wrap));
        i = j + 1;
    }
    out
}

/// Structure comment for `doc`: each line trimmed, lines of two bytes or fewer
/// dropped, the rest written as `// ` lines of at most sixty bytes of text, each
/// ending with a line feed. No documentation gives an empty comment.
pub fn get_structure_comment(doc: Option<&str>) -> (r: String)
    ensures
        r@ == structure_comment(doc_text(doc)),
{
    render_doc(doc, true)
}

/// Field comment for `doc`: each line trimmed, lines of one byte or fewer
/// dropped, the rest each written as `// ` and the line followed by two spaces.
pub fn get_field_comment(doc: Option<&str>) -> (r: String)
    ensures
        r@ == field_comment(doc_text(doc)),
{
    render_doc(doc, false)
}

/// Rendering depends on the documentation text alone: the same text gives the
/// same comment, character for character, each time it is rendered.
pub proof fn lemma_comment_deterministic(a: Seq<char>, b: Seq<char>)
    requires
        a == b,
    ensures
        structure_comment(a) == structure_comment(b),
        field_comment(a) == field_comment(b),
        wrap_line(a) == wrap_line(b),
{
}

/// The text that a structure comment keeps of `doc`: its trimmed lines of more
/// than two bytes, joined in order.
pub open spec fn kept_text(doc: Seq<char>) -> Seq<char>
    decreases doc.len(),
{
    let k = line_len(doc);
    let line = trim(doc.take(k as int));
    let here = if byte_len(line) > 2 {
        line
    } else {
        seq![]
    };
    if k >= doc.len() {
        here
    } else {
        here + kept_text(doc.skip(k + 1 as int))
    }
}

/// Comment lines with their `// ` prefixes and their line breaks taken out.
pub open spec fn strip_comment(out: Seq<char>) -> Seq<char>
    decreases out.len(),
{
    if out.len() >= 3 && out.take(3) == comment_prefix() {
        let body = out.skip(3);
        let k = line_len(body);
        if k >= body.len() {
            body
        } else {
            body.take(k as int) + strip_comment(body.skip(k + 1 as int))
        }
    } else {
        out
    }
}

pub open spec fn no_line_feed(s: Seq<char>) -> bool {
    forall|i: int| 0 <= i < s.len() ==> s[i] != '\n'
}

proof fn lemma_line_len_at_feed(a: Seq<char>, b: Seq<char>)
    requires
        no_line_feed(a),
        b.len() > 0,
        b[0] == '\n',
    ensures
        line_len(a + b) == a.len(),
    decreases a.len(),
{
    if a.len() > 0 {
        assert((a + b).drop_first() =~= a.drop_first() + b);
        lemma_line_len_at_feed(a.drop_first(), b);
    } else {
        assert(a + b =~= b);
    }
}

proof fn lemma_line_has_no_feed(doc: Seq<char>)
    ensures
        line_len(doc) <= doc.len(),
        no_line_feed(doc.take(line_len(doc) as int)),
    decreases doc.len(),
{
    if doc.len() > 0 && doc[0] != '\n' {
        lemma_line_has_no_feed(doc.drop_first());
        let k = line_len(doc.drop_first()) as int;
        assert forall|i: int| 0 <= i < k + 1 implies #[trigger] doc.take(k + 1)[i] != '\n' by {
            if i > 0 {
                assert(doc.take(k + 1)[i] == doc.drop_first().take(k)[i - 1]);
            }
        }
    }
}

proof fn lemma_trim_keeps_no_feed(cs: Seq<char>)
    requires
        no_line_feed(cs),
    ensures
        no_line_feed(trim_start(cs)),
        no_line_feed(trim(cs)),
    decreases cs.len(),
{
    if cs.len() > 0 && is_white_space(cs[0]) {
        assert(no_line_feed(cs.drop_first()));
        lemma_trim_keeps_no_feed(cs.drop_first());
    }
    lemma_trim_end_keeps_no_feed(trim_start(cs));
}

proof fn lemma_trim_end_keeps_no_feed(cs: Seq<char>)
    requires
        no_line_feed(cs),
    ensures
        no_line_feed(trim_end(cs)),
    decreases cs.len(),
{
    if cs.len() > 0 && is_white_space(cs.last()) {
        assert(no_line_feed(cs.drop_last()));
        lemma_trim_end_keeps_no_feed(cs.drop_last());
    }
}

proof fn lemma_strip_wrapped(l: Seq<char>, rest: Seq<char>)
    requires
        no_line_feed(l),
    ensures
        strip_comment(wrap_line(l) + rest) == l + strip_comment(rest),
    decreases l.len(),
{
    if l.len() == 0 {
        assert(wrap_line(l) + rest =~= rest);
        assert(l + strip_comment(rest) =~= strip_comment(rest));
    } else {
        lemma_fit_bounds(l, WRAP_WIDTH as int);
        let k = fit(l, WRAP_WIDTH as int);
        let tail = l.skip(k as int);
        assert(no_line_feed(tail));
        assert(no_line_feed(l.take(k as int)));
        let out = wrap_line(l) + rest;
        assert(out =~= comment_prefix() + (l.take(k as int) + (seq!['\n'] + (wrap_line(tail)
            + rest))));
        let body = out.skip(3);
        assert(out.take(3) =~= comment_prefix());
        assert(body =~= l.take(k as int) + (seq!['\n'] + (wrap_line(tail) + rest)));
        lemma_line_len_at_feed(l.take(k as int), seq!['\n'] + (wrap_line(tail) + rest));
        assert(body.take(k as int) =~= l.take(k as int));
        assert(body.skip(k + 1 as int) =~= wrap_line(tail) + rest);
        lemma_strip_wrapped(tail, rest);
        assert(l.take(k as int) + (tail + strip_comment(rest)) =~= l + strip_comment(rest));
    }
}

/// The text of a structure comment, with its `// ` prefixes and line breaks taken
/// out, is the documentation's trimmed lines joined, without the lines of two
/// bytes or fewer.
pub proof fn lemma_documentation_round_trip(doc: Seq<char>)
    ensures
        strip_comment(structure_comment(doc)) == kept_text(doc),
    decreases doc.len(),
{
    let k = line_len(doc);
    lemma_line_has_no_feed(doc);
    let line = trim(doc.take(k as int));
    lemma_trim_keeps_no_feed(doc.take(k as int));
    let empty = Seq::<char>::empty();
    if k >= doc.len() {
        if byte_len(line) > 2 {
            lemma_strip_wrapped(line, empty);
            assert(wrap_line(line) + empty =~= wrap_line(line));
            assert(line + strip_comment(empty) =~= line);
        }
    } else {
        let rest = doc.skip(k + 1 as int);
        lemma_documentation_round_trip(rest);
        if byte_len(line) > 2 {
            lemma_strip_wrapped(line, doc_comment(rest, true));
        } else {
            assert(render_line(line, true) + doc_comment(rest, true) =~= doc_comment(rest, true));
            assert(empty + kept_text(rest) =~= kept_text(rest));
        }
    }
}

pub open spec fn is_ascii_text(cs: Seq<char>) -> bool {
    forall|i: int| 0 <= i < cs.len() ==> (cs[i] as u32) < 0x80
}

proof fn lemma_fit_ascii(cs: Seq<char>, room: int)
    requires
        is_ascii_text(cs),
        room >= 0,
    ensures
        fit(cs, room) == if cs.len() < room {
            cs.len() as int
        } else {
            room
        },
    decreases cs.len(),
{
    if cs.len() > 0 && room >= 1 {
        assert(is_ascii_text(cs.drop_first()));
        lemma_fit_ascii(cs.drop_first(), room - 1);
    }
}

proof fn lemma_byte_len_ascii(cs: Seq<char>)
    requires
        is_ascii_text(cs),
    ensures
        byte_len(cs) == cs.len(),
    decreases cs.len(),
{
    if cs.len() > 0 {
        assert(is_ascii_text(cs.drop_last()));
        lemma_byte_len_ascii(cs.drop_last());
    }
}

proof fn lemma_line_len_whole(cs: Seq<char>)
    requires
        no_line_feed(cs),
    ensures
        line_len(cs) == cs.len(),
    decreases cs.len(),
{
    if cs.len() > 0 {
        assert(no_line_feed(cs.drop_first()));
        lemma_line_len_whole(cs.drop_first());
    }
}

/// A line of 130 ASCII characters, without surrounding white space, becomes
/// three comment lines: sixty characters, sixty more, and the last ten, each
/// after `// ` and ending with a line feed.
pub proof fn lemma_wrap_of_130(line: Seq<char>)
    requires
        line.len() == 130,
        is_ascii_text(line),
        no_line_feed(line),
        trim(line) == line,
    ensures
        structure_comment(line) == comment_prefix() + line.subrange(0, 60) + seq!['\n']
            + comment_prefix() + line.subrange(60, 120) + seq!['\n'] + comment_prefix()
            + line.subrange(120, 130) + seq!['\n'],
{
    lemma_line_len_whole(line);
    assert(line.take(130) =~= line);
    lemma_byte_len_ascii(line);
    let a = line.skip(60);
    let b = a.skip(60);
    let c = b.skip(10);
    assert(is_ascii_text(a));
    assert(is_ascii_text(b));
    lemma_fit_ascii(line, 60);
    lemma_fit_ascii(a, 60);
    lemma_fit_ascii(b, 60);
    assert(c.len() == 0);
    assert(wrap_line(c) == Seq::<char>::empty());
    assert(line.take(60) =~= line.subrange(0, 60));
    assert(a.take(60) =~= line.subrange(60, 120));
    assert(b.take(10) =~= line.subrange(120, 130));
    assert(wrap_line(b) =~= comment_prefix() + line.subrange(120, 130) + seq!['\n']);
    assert(wrap_line(a) =~= comment_prefix() + line.subrange(60, 120) + seq!['\n'] + wrap_line(b));
    assert(wrap_line(line) =~= comment_prefix() + line.subrange(0, 60) + seq!['\n'] + wrap_line(
        a,
    ));
    assert(structure_comment(line) == wrap_line(line));
    assert(wrap_line(line) =~= comment_prefix() + line.subrange(0, 60) + seq!['\n']
        + comment_prefix() + line.subrange(60, 120) + seq!['\n'] + comment_prefix()
        + line.subrange(120, 130) + seq!['\n']);
}

/// The trimmed lines of `doc` that a field comment keeps: those of more than one
/// byte, in order.
pub open spec fn field_lines(doc: Seq<char>) -> Seq<Seq<char>>
    decreases doc.len(),
{
    let k = line_len(doc);
    let line = trim(doc.take(k as int));
    let here = if byte_len(line) > 1 {
        seq![line]
    } else {
        Seq::<Seq<char>>::empty()
    };
    if k >= doc.len() {
        here
    } else {
        here + field_lines(doc.skip(k + 1 as int))
    }
}

/// Field comment segments for `ls`, one after another.
pub open spec fn framed(ls: Seq<Seq<char>>) -> Seq<char>
    decreases ls.len(),
{
    if ls.len() == 0 {
        seq![]
    } else {
        field_line(ls[0]) + framed(ls.drop_first())
    }
}

/// The text of a field comment segment: without its `// ` and its two spaces.
pub open spec fn unframe(seg: Seq<char>) -> Seq<char> {
    seg.subrange(3, seg.len() - 2)
}

/// A field comment is one segment per kept documentation line, in order, and
/// taking each segment's `// ` and two trailing spaces off gives that line back.
pub proof fn lemma_field_comment_round_trip(doc: Seq<char>)
    ensures
        field_comment(doc) == framed(field_lines(doc)),
        forall|i: int|
            0 <= i < field_lines(doc).len() ==> unframe(field_line(#[trigger] field_lines(doc)[i]))
                == field_lines(doc)[i],
    decreases doc.len(),
{
    let k = line_len(doc);
    let line = trim(doc.take(k as int));
    let empty = Seq::<char>::empty();
    assert forall|l: Seq<char>| #[trigger] unframe(field_line(l)) == l by {
        assert(unframe(field_line(l)) =~= l);
    }
    if k < doc.len() {
        let rest = doc.skip(k + 1 as int);
        lemma_field_comment_round_trip(rest);
        if byte_len(line) > 1 {
            let ls = seq![line] + field_lines(rest);
            assert(ls[0] == line);
            assert(ls.drop_first() =~= field_lines(rest));
            assert(field_lines(doc) == ls);
            assert(framed(ls) == field_line(line) + framed(field_lines(rest)));
            assert(field_comment(doc) == field_line(line) + field_comment(rest));
        } else {
            assert(field_lines(doc) =~= field_lines(rest));
            assert(field_comment(doc) == empty + field_comment(rest));
            assert(Seq::<Seq<char>>::empty() + field_lines(rest) =~= field_lines(rest));
            assert(empty + doc_comment(rest, false) =~= doc_comment(rest, false));
        }
    } else {
        if byte_len(line) > 1 {
            let ls = seq![line];
            assert(ls.drop_first() =~= Seq::<Seq<char>>::empty());
            assert(field_line(line) + empty =~= field_line(line));
            assert(field_lines(doc) == ls);
            assert(framed(ls) == field_line(line) + framed(ls.drop_first()));
        }
    }
}

} // verus!
