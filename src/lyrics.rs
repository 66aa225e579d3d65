use vstd::prelude::*;
use vstd::string::*;
use crate::error::{ConvertError, Missing};
use crate::markup::Markup;
use crate::timestamp::{TimeTag, parse_timestamp, ttml_timetag_to_lrc_timetag};

verus! {

/// One timed line of a lyric document.
pub struct LyricLine {
    pub time: TimeTag,
    pub text: String,
}

/// Artist and title metadata followed by timed lines in document order.
pub struct LyricDocument {
    pub artist: String,
    pub title: String,
    pub lines: Vec<LyricLine>,
}

/// Why one paragraph, or the document, cannot be converted.
#[derive(Debug, Clone, Copy, PartialEq, Eq, Structural)]
pub enum Fault {
    Timestamp,
    Structure(Missing),
    Unsupported,
    Validation,
}

/// A control character that the line-lyric format refuses: all but tab.
pub open spec fn format_control(c: char) -> bool {
    (c as u32) <= 0x08 || (0x0A <= (c as u32) && (c as u32) <= 0x1F) || (c as u32) == 0x7F
}

/// White space as `char::is_whitespace` defines it.
pub open spec fn white(c: char) -> bool {
    let u = c as u32;
    (0x09 <= u && u <= 0x0D) || u == 0x20 || u == 0x85 || u == 0xA0 || u == 0x1680 || (0x2000 <= u
        && u <= 0x200A) || u == 0x2028 || u == 0x2029 || u == 0x202F || u == 0x205F || u == 0x3000
}

/// A metadata text that the line-lyric format accepts: once white space is trimmed from
/// both ends, it holds no control character but tab and no `[` or `]`.
pub open spec fn id_text_ok(s: Seq<char>) -> bool {
    exists|a: int, b: int| #[trigger] trimmed_at(s, a, b)
}

/// `s` has only white space before `a` and from `b` on, and between them no control
/// character but tab and no `[` or `]`.
pub open spec fn trimmed_at(s: Seq<char>, a: int, b: int) -> bool {
        0 <= a <= b <= s.len() && (forall|i: int| 0 <= i < a ==> white(#[trigger] s[i])) && (forall|i: int|
            b <= i < s.len() ==> white(#[trigger] s[i])) && (forall|i: int|
            a <= i < b ==> !format_control(#[trigger] s[i]) && s[i] != '[' && s[i] != ']')
}

/// A lyric line that the line-lyric format accepts: no control character but tab, and no
/// `[`, then `:`, then `]` in that order.
pub open spec fn line_ok(s: Seq<char>) -> bool {
    &&& forall|i: int| 0 <= i < s.len() ==> !format_control(#[trigger] s[i])
    &&& !(exists|i: int, j: int, k: int|
        0 <= i < j < k < s.len() && #[trigger] s[i] == '[' && #[trigger] s[j] == ':' && #[trigger] s[k]
            == ']')
}

/// A metadata value: present, and accepted by the line-lyric format.
pub open spec fn valid_metadata(s: Seq<char>) -> bool {
    s.len() > 0 && id_text_ok(s)
}

/// Every line text is accepted by the line-lyric format.
pub open spec fn lines_accepted(ls: Seq<(TimeTag, Seq<char>)>) -> bool {
    forall|i: int| 0 <= i < ls.len() ==> line_ok(#[trigger] ls[i].1)
}

/// Relies on lrc's `IDTag::from_string`: it trims white space (`str::trim`) from the text
/// and then accepts it when it holds no control character but tab and no `[` or `]`.
#[verifier::external_body]
fn id_tag_accepts(label: &str, text: &str) -> (r: bool)
    requires
        label@ == seq!['a', 'r'] || label@ == seq!['t', 'i'],
    ensures
        r == id_text_ok(text@),
{
    lrc::IDTag::from_string(label, text).is_ok()
}

/// Relies on lrc's `Lyrics::add_timed_line`, which accepts a line when it holds no control
/// character but tab and no bracketed `[..:..]` tag, whatever the time tag.
#[verifier::external_body]
fn timed_line_accepts(text: &str) -> (r: bool)
    ensures
        r == line_ok(text@),
{
    lrc::Lyrics::new().add_timed_line(lrc::TimeTag::new(0i64), text).is_ok()
}

/// The first `body` element of the document.
pub open spec fn body_of(m: Markup) -> Option<usize> {
    let bs = m.select_all(0, seq!['b', 'o', 'd', 'y']);
    if bs.len() > 0 { Some(bs[0]) } else { None }
}

pub open spec fn divs_of(m: Markup, body: int) -> Seq<usize> {
    m.select_all(body, seq!['d', 'i', 'v'])
}

pub open spec fn ps_of(m: Markup, div: int) -> Seq<usize> {
    m.select_all(div, seq!['p'])
}

/// The `p` elements under each of `divs` in turn, in document order.
pub open spec fn paragraphs_under(m: Markup, divs: Seq<usize>) -> Seq<usize>
    decreases divs.len(),
{
    if divs.len() == 0 {
        Seq::empty()
    } else {
        paragraphs_under(m, divs.drop_last()) + ps_of(m, divs.last() as int)
    }
}

/// The paragraphs that synthesis visits, in the order it visits them.
pub open spec fn paragraphs(m: Markup, body: int) -> Seq<usize> {
    paragraphs_under(m, divs_of(m, body))
}

/// The timed line that paragraph `p` yields, or why it yields none.
pub open spec fn paragraph_line(m: Markup, p: int) -> Result<(TimeTag, Seq<char>), Fault> {
    if m.select_all(p, seq!['s', 'p', 'a', 'n']).len() > 0 {
        Err(Fault::Unsupported)
    } else {
        match m.attribute(p, seq!['b', 'e', 'g', 'i', 'n']) {
            None => Err(Fault::Structure(Missing::BeginAttribute)),
            Some(b) => match m.first_text(p) {
                None => Err(Fault::Structure(Missing::TextContent)),
                Some(t) => match parse_timestamp(b) {
                    None => Err(Fault::Timestamp),
                    Some(tag) => Ok((tag, t)),
                },
            },
        }
    }
}

/// The lines of paragraphs `ps` in order, or the first fault with the paragraph it lies in.
pub open spec fn lines_of(m: Markup, ps: Seq<usize>) -> Result<Seq<(TimeTag, Seq<char>)>, (Fault, usize)>
    decreases ps.len(),
{
    if ps.len() == 0 {
        Ok(Seq::empty())
    } else {
        match lines_of(m, ps.drop_last()) {
            Err(e) => Err(e),
            Ok(ls) => match paragraph_line(m, ps.last() as int) {
                Err(f) => Err((f, ps.last())),
                Ok(l) => Ok(ls.push(l)),
            },
        }
    }
}

/// What synthesis of `m` with the given artist and title yields.
pub open spec fn synthesis(m: Markup, artist: Seq<char>, title: Seq<char>) -> Result<Seq<(TimeTag, Seq<char>)>, (Fault, usize)> {
    match body_of(m) {
        None => Err((Fault::Structure(Missing::Body), 0)),
        Some(b) => match lines_of(m, paragraphs(m, b as int)) {
            Err(e) => Err(e),
            Ok(ls) => if valid_metadata(artist) && valid_metadata(title) && lines_accepted(ls) {
                Ok(ls)
            } else {
                Err((Fault::Validation, b))
            },
        },
    }
}

/// Whether `e` is the error that `f`, found at paragraph `p`, is reported as.
pub open spec fn reports(e: ConvertError, f: Fault, m: Markup, p: int) -> bool {
    match f {
        Fault::Timestamp => e is MalformedTimestamp && m.attribute(p, seq!['b', 'e', 'g', 'i', 'n'])
            == Some(e->MalformedTimestamp_0@),
        Fault::Structure(x) => e is StructureError && e->StructureError_0 == x,
        Fault::Unsupported => e is UnsupportedFeature,
        Fault::Validation => e is ValidationError,
    }
}

pub open spec fn line_view(l: LyricLine) -> (TimeTag, Seq<char>) {
    (l.time, l.text@)
}

pub open spec fn lines_view(ls: Seq<LyricLine>) -> Seq<(TimeTag, Seq<char>)> {
    ls.map_values(|l: LyricLine| line_view(l))
}

/// The text of timed lines: `[MM:SS.cc]text` and a newline for each, in order.
pub open spec fn render_lines(ls: Seq<(TimeTag, Seq<char>)>) -> Seq<char>
    decreases ls.len(),
{
    if ls.len() == 0 {
        Seq::empty()
    } else {
        render_lines(ls.drop_last()) + seq!['['] + ls.last().0.text() + seq![']'] + ls.last().1
            + seq!['\n']
    }
}

/// The text of a lyric document: artist and title tags, then its timed lines.
pub open spec fn render(artist: Seq<char>, title: Seq<char>, ls: Seq<(TimeTag, Seq<char>)>) -> Seq<char> {
    seq!['[', 'a', 'r', ':'] + artist + seq![']', '\n'] + seq!['[', 't', 'i', ':'] + title + seq![
        ']',
        '\n',
    ] + render_lines(ls)
}

impl LyricDocument {
    /// Writes the document: `[ar:artist]`, `[ti:title]`, then `[MM:SS.cc]text` for each line
    /// in order, each followed by a newline.
    pub fn to_text(&self) -> (r: String)
        ensures
            r@ == render(self.artist@, self.title@, lines_view(self.lines@)),
    {
        proof {
            reveal_strlit("[ar:");
            reveal_strlit("[ti:");
            reveal_strlit("]\n");
            reveal_strlit("[");
            reveal_strlit("]");
            reveal_strlit("\n");
        }
        let mut s = String::new();
        s.append("[ar:");
        s.append(self.artist.as_str());
        s.append("]\n");
        s.append("[ti:");
        s.append(self.title.as_str());
        s.append("]\n");
        let ghost head = s@;
        assert(head =~= render(self.artist@, self.title@, Seq::empty()));
        let mut i: usize = 0;
        while i < self.lines.len()
            invariant
                i <= self.lines@.len(),
                head == render(self.artist@, self.title@, Seq::empty()),
                s@ == head + render_lines(lines_view(self.lines@.subrange(0, i as int))),
            decreases self.lines@.len() - i,
        {
            proof {
                reveal_strlit("[");
                reveal_strlit("]");
                reveal_strlit("\n");
            }
            let line = &self.lines[i];
            let tag = line.time.to_text();
            s.append("[");
            s.append(tag.as_str());
            s.append("]");
            s.append(line.text.as_str());
            s.append("\n");
            let ghost pre = lines_view(self.lines@.subrange(0, i + 1));
            assert(pre.drop_last() =~= lines_view(self.lines@.subrange(0, i as int)));
            assert(pre.last() == line_view(*line));
            assert(render_lines(pre) == render_lines(pre.drop_last()) + seq!['['] + pre.last().0.text()
                + seq![']'] + pre.last().1 + seq!['\n']);
            i = i + 1;
            assert(s@ =~= head + render_lines(lines_view(self.lines@.subrange(0, i as int))));
        }
        assert(self.lines@.subrange(0, self.lines@.len() as int) =~= self.lines@);
        assert(render(self.artist@, self.title@, lines_view(self.lines@)) =~= head + render_lines(
            lines_view(self.lines@),
        ));
        s
    }
}

proof fn lemma_lines_of_err(m: Markup, a: Seq<usize>, b: Seq<usize>)
    requires
        lines_of(m, a) is Err,
    ensures
        lines_of(m, a + b) == lines_of(m, a),
    decreases b.len(),
{
    if b.len() == 0 {
        assert(a + b =~= a);
    } else {
        lemma_lines_of_err(m, a, b.drop_last());
        assert((a + b).drop_last() =~= a + b.drop_last());
    }
}

proof fn lemma_select_bounds(m: Markup, i: int, k: int, name: Seq<char>)
    requires
        m.wf(),
    ensures
        forall|j: int|
            0 <= j < m.select_from(i, k, name).len() ==> i < #[trigger] m.select_from(i, k, name)[j]
                < m.len(),
    decreases m.len() - i, m.children(i).len() - k,
{
    if !(i < 0 || i >= m.len() || k < 0 || k >= m.children(i).len()) {
        let c = m.children(i)[k];
        assert(i < c < m.len());
        lemma_select_bounds(m, c as int, 0, name);
        lemma_select_bounds(m, i, k + 1, name);
        let here = if m.is_named(c as int, name) { seq![c] } else { Seq::empty() };
        let below = m.select_from(c as int, 0, name);
        let rest = m.select_from(i, k + 1, name);
        let all = m.select_from(i, k, name);
        assert(all == here + below + rest);
        assert forall|j: int| 0 <= j < all.len() implies i < #[trigger] all[j] < m.len() by {
            if j < here.len() {
            } else if j < here.len() + below.len() {
                assert(all[j] == below[j - here.len()]);
            } else {
                assert(all[j] == rest[j - here.len() - below.len()]);
            }
        }
    }
}

proof fn lemma_paragraphs_prefix(m: Markup, divs: Seq<usize>, i: int)
    requires
        0 <= i <= divs.len(),
    ensures
        paragraphs_under(m, divs.subrange(0, i)).len() <= paragraphs_under(m, divs).len(),
        paragraphs_under(m, divs).subrange(0, paragraphs_under(m, divs.subrange(0, i)).len() as int)
            == paragraphs_under(m, divs.subrange(0, i)),
    decreases divs.len(),
{
    let a = paragraphs_under(m, divs.subrange(0, i));
    let w = paragraphs_under(m, divs);
    if i == divs.len() {
        assert(divs.subrange(0, i) =~= divs);
        assert(w.subrange(0, w.len() as int) =~= w);
    } else {
        let d = divs.drop_last();
        lemma_paragraphs_prefix(m, d, i);
        assert(d.subrange(0, i) =~= divs.subrange(0, i));
        let v = paragraphs_under(m, d);
        assert(w == v + ps_of(m, divs.last() as int));
        assert(w.subrange(0, a.len() as int) =~= v.subrange(0, a.len() as int));
    }
}

proof fn lemma_lines_of_ok(m: Markup, ps: Seq<usize>)
    ensures
        lines_of(m, ps) is Ok <==> forall|j: int| 0 <= j < ps.len() ==> #[trigger] paragraph_line(m, ps[j] as int) is Ok,
        lines_of(m, ps) is Ok ==> lines_of(m, ps)->Ok_0.len() == ps.len() && forall|j: int|
            0 <= j < ps.len() ==> #[trigger] lines_of(m, ps)->Ok_0[j] == paragraph_line(m, ps[j] as int)->Ok_0,
    decreases ps.len(),
{
    if ps.len() > 0 {
        let d = ps.drop_last();
        lemma_lines_of_ok(m, d);
        assert forall|j: int| 0 <= j < d.len() implies d[j] == ps[j] by {}
        if !(lines_of(m, d) is Ok) {
            let j0 = choose|j: int| 0 <= j < d.len() && !(paragraph_line(m, d[j] as int) is Ok);
            assert(!(paragraph_line(m, ps[j0] as int) is Ok));
        }
    }
}

/// Synthesis visits paragraphs in document order: when it succeeds, its `j`-th line is the
/// line of the `j`-th `p` of the `div`s of the body, in order, whatever their timestamps.
pub proof fn lemma_line_order(m: Markup, artist: Seq<char>, title: Seq<char>)
    requires
        synthesis(m, artist, title) is Ok,
    ensures
        body_of(m) is Some,
        synthesis(m, artist, title)->Ok_0.len() == paragraphs(m, body_of(m)->Some_0 as int).len(),
        forall|j: int|
            0 <= j < paragraphs(m, body_of(m)->Some_0 as int).len() ==> #[trigger] synthesis(m, artist, title)->Ok_0[j]
                == paragraph_line(m, paragraphs(m, body_of(m)->Some_0 as int)[j] as int)->Ok_0,
{
    lemma_lines_of_ok(m, paragraphs(m, body_of(m)->Some_0 as int));
}

/// A paragraph holding a `span` fails the whole synthesis with an unsupported-feature
/// fault, however many well-formed paragraphs come before it.
pub proof fn lemma_span_fails(m: Markup, artist: Seq<char>, title: Seq<char>, k: int)
    requires
        body_of(m) is Some,
        0 <= k < paragraphs(m, body_of(m)->Some_0 as int).len(),
        m.select_all(paragraphs(m, body_of(m)->Some_0 as int)[k] as int, seq!['s', 'p', 'a', 'n']).len() > 0,
        forall|j: int| 0 <= j < k ==> #[trigger] paragraph_line(m, paragraphs(m, body_of(m)->Some_0 as int)[j] as int) is Ok,
    ensures
        synthesis(m, artist, title) == Err::<Seq<(TimeTag, Seq<char>)>, (Fault, usize)>(
            (Fault::Unsupported, paragraphs(m, body_of(m)->Some_0 as int)[k]),
        ),
{
    let ps = paragraphs(m, body_of(m)->Some_0 as int);
    let pre = ps.subrange(0, k);
    let upto = ps.subrange(0, k + 1);
    assert forall|j: int| 0 <= j < pre.len() implies #[trigger] paragraph_line(m, pre[j] as int) is Ok by {
        assert(pre[j] == ps[j]);
    }
    lemma_lines_of_ok(m, pre);
    assert(upto.drop_last() =~= pre);
    lemma_lines_of_err(m, upto, ps.subrange(k + 1, ps.len() as int));
    assert(upto + ps.subrange(k + 1, ps.len() as int) =~= ps);
}

/// A body with no `div` yields a document with no timed lines, whose text is the artist
/// and title lines alone.
pub proof fn lemma_empty_body(m: Markup, artist: Seq<char>, title: Seq<char>)
    requires
        body_of(m) is Some,
        divs_of(m, body_of(m)->Some_0 as int).len() == 0,
        valid_metadata(artist),
        valid_metadata(title),
    ensures
        synthesis(m, artist, title) == Ok::<Seq<(TimeTag, Seq<char>)>, (Fault, usize)>(Seq::empty()),
        render(artist, title, Seq::empty()) == seq!['[', 'a', 'r', ':'] + artist + seq![
            ']',
            '\n',
            '[',
            't',
            'i',
            ':',
        ] + title + seq![']', '\n'],
{
    assert(render(artist, title, Seq::empty()) =~= seq!['[', 'a', 'r', ':'] + artist + seq![
        ']',
        '\n',
        '[',
        't',
        'i',
        ':',
    ] + title + seq![']', '\n']);
}

fn valid_metadata_exec(label: &str, s: &str) -> (r: bool)
    requires
        label@ == seq!['a', 'r'] || label@ == seq!['t', 'i'],
    ensures
        r == valid_metadata(s@),
{
    s.unicode_len() > 0 && id_tag_accepts(label, s)
}

fn convert_paragraph(m: &Markup, p: usize) -> (r: Result<LyricLine, ConvertError>)
    requires
        m.wf(),
        p < m.len(),
    ensures
        paragraph_line(*m, p as int) is Ok ==> r is Ok && line_view(r->Ok_0) == paragraph_line(
            *m,
            p as int,
        )->Ok_0,
        paragraph_line(*m, p as int) is Err ==> r is Err && reports(
            r->Err_0,
            paragraph_line(*m, p as int)->Err_0,
            *m,
            p as int,
        ),
{
    proof {
        reveal_strlit("span");
        reveal_strlit("begin");
        assert("span"@ =~= seq!['s', 'p', 'a', 'n']);
        assert("begin"@ =~= seq!['b', 'e', 'g', 'i', 'n']);
    }
    let spans = m.query_selector_all(p, "span");
    if spans.len() > 0 {
        return Err(ConvertError::UnsupportedFeature);
    }
    let begin = match m.attribute_of(p, "begin") {
        Some(b) => b,
        None => return Err(ConvertError::StructureError(Missing::BeginAttribute)),
    };
    let text = match m.first_text_of(p) {
        Some(t) => t,
        None => return Err(ConvertError::StructureError(Missing::TextContent)),
    };
    let time = match ttml_timetag_to_lrc_timetag(begin.as_str()) {
        Ok(t) => t,
        Err(e) => return Err(e),
    };
    Ok(LyricLine { time, text })
}

/// Builds the lyric document of a timed-text tree: one timed line for each `p` under each
/// `div` of its `body`, in document order, with artist and title metadata.
///
/// Fails at the first paragraph that holds a `span`, lacks a `begin` attribute or leading
/// text, or has a malformed timestamp; no partial document is returned.
pub fn ttml_to_lrc(xml: &Markup, author: &str, name: &str) -> (r: Result<LyricDocument, ConvertError>)
    requires
        xml.wf(),
    ensures
        synthesis(*xml, author@, name@) is Ok ==> r is Ok && r->Ok_0.artist@ == author@
            && r->Ok_0.title@ == name@ && lines_view(r->Ok_0.lines@) == synthesis(
            *xml,
            author@,
            name@,
        )->Ok_0,
        synthesis(*xml, author@, name@) is Err ==> r is Err && reports(
            r->Err_0,
            synthesis(*xml, author@, name@)->Err_0.0,
            *xml,
            synthesis(*xml, author@, name@)->Err_0.1 as int,
        ),
{
    proof {
        reveal_strlit("body");
        reveal_strlit("div");
        reveal_strlit("p");
        assert("body"@ =~= seq!['b', 'o', 'd', 'y']);
        assert("div"@ =~= seq!['d', 'i', 'v']);
        assert("p"@ =~= seq!['p']);
    }
    let bodies = xml.query_selector_all(0, "body");
    if bodies.len() == 0 {
        return Err(ConvertError::StructureError(Missing::Body));
    }
    let body = bodies[0];
    proof {
        lemma_select_bounds(*xml, 0, 0, seq!['b', 'o', 'd', 'y']);
    }
    let divs = xml.query_selector_all(body, "div");
    let ghost all = paragraphs(*xml, body as int);
    let mut lines: Vec<LyricLine> = Vec::new();
    let mut i: usize = 0;
    assert(divs@.subrange(0, 0) =~= Seq::<usize>::empty());
    assert(lines_view(lines@) =~= Seq::empty());
    while i < divs.len()
        invariant
            xml.wf(),
            body < xml.len(),
            i <= divs@.len(),
            divs@ == divs_of(*xml, body as int),
            all == paragraphs_under(*xml, divs@),
            all == paragraphs(*xml, body as int),
            body_of(*xml) == Some(body),
            lines_of(*xml, paragraphs_under(*xml, divs@.subrange(0, i as int))) == Ok::<
                Seq<(TimeTag, Seq<char>)>,
                (Fault, usize),
            >(lines_view(lines@)),
        decreases divs@.len() - i,
    {
        let div = divs[i];
        proof {
            reveal_strlit("p");
            assert("p"@ =~= seq!['p']);
            lemma_select_bounds(*xml, body as int, 0, seq!['d', 'i', 'v']);
        }
        let ps = xml.query_selector_all(div, "p");
        let ghost done = paragraphs_under(*xml, divs@.subrange(0, i as int));
        let mut j: usize = 0;
        assert(done + ps@.subrange(0, 0) =~= done);
        while j < ps.len()
            invariant
                xml.wf(),
                div < xml.len(),
                i < divs@.len(),
                div == divs@[i as int],
                done == paragraphs_under(*xml, divs@.subrange(0, i as int)),
                all == paragraphs_under(*xml, divs@),
                all == paragraphs(*xml, body as int),
                body_of(*xml) == Some(body),
                j <= ps@.len(),
                ps@ == ps_of(*xml, div as int),
                lines_of(*xml, done + ps@.subrange(0, j as int)) == Ok::<
                    Seq<(TimeTag, Seq<char>)>,
                    (Fault, usize),
                >(lines_view(lines@)),
            decreases ps@.len() - j,
        {
            let p = ps[j];
            proof {
                lemma_select_bounds(*xml, div as int, 0, seq!['p']);
            }
            let ghost next = done + ps@.subrange(0, j + 1);
            assert(next.drop_last() =~= done + ps@.subrange(0, j as int));
            assert(next.last() == p);
            match convert_paragraph(xml, p) {
                Ok(line) => {
                    let ghost before = lines@;
                    lines.push(line);
                    assert(lines_view(lines@) =~= lines_view(before).push(line_view(line)));
                },
                Err(e) => {
                    proof {
                        let upto = divs@.subrange(0, i + 1);
                        assert(upto.drop_last() =~= divs@.subrange(0, i as int));
                        let whole = paragraphs_under(*xml, upto);
                        assert(whole == done + ps@);
                        lemma_paragraphs_prefix(*xml, divs@, i + 1);
                        assert(whole.subrange(0, next.len() as int) =~= next);
                        assert(all.subrange(0, next.len() as int) =~= next);
                        lemma_lines_of_err(*xml, next, all.subrange(next.len() as int, all.len() as int));
                        assert(next + all.subrange(next.len() as int, all.len() as int) =~= all);
                    }
                    assert(lines_of(*xml, next) == Err::<Seq<(TimeTag, Seq<char>)>, (Fault, usize)>(
                        (paragraph_line(*xml, p as int)->Err_0, p),
                    ));
                    return Err(e);
                },
            }
            j = j + 1;
        }
        proof {
            let sub = divs@.subrange(0, i + 1);
            assert(sub.drop_last() =~= divs@.subrange(0, i as int));
            assert(ps@.subrange(0, ps@.len() as int) =~= ps@);
        }
        i = i + 1;
    }
    assert(divs@.subrange(0, divs@.len() as int) =~= divs@);
    proof {
        reveal_strlit("ar");
        reveal_strlit("ti");
        assert("ar"@ =~= seq!['a', 'r']);
        assert("ti"@ =~= seq!['t', 'i']);
    }
    if !valid_metadata_exec("ar", author) || !valid_metadata_exec("ti", name) {
        return Err(ConvertError::ValidationError);
    }
    let mut k: usize = 0;
    while k < lines.len()
        invariant
            k <= lines@.len(),
            forall|j: int| 0 <= j < k ==> line_ok(#[trigger] lines@[j].text@),
            body_of(*xml) == Some(body),
            all == paragraphs(*xml, body as int),
            lines_of(*xml, all) == Ok::<Seq<(TimeTag, Seq<char>)>, (Fault, usize)>(lines_view(lines@)),
            valid_metadata(author@),
            valid_metadata(name@),
        decreases lines@.len() - k,
    {
        if !timed_line_accepts(lines[k].text.as_str()) {
            proof {
                assert(lines_view(lines@)[k as int].1 == lines@[k as int].text@);
                assert(!lines_accepted(lines_view(lines@)));
            }
            return Err(ConvertError::ValidationError);
        }
        k = k + 1;
    }
    assert(lines_accepted(lines_view(lines@))) by {
        assert forall|j: int| 0 <= j < lines_view(lines@).len() implies line_ok(
            #[trigger] lines_view(lines@)[j].1,
        ) by {
            assert(lines_view(lines@)[j].1 == lines@[j].text@);
        }
    }
    Ok(LyricDocument { artist: author.to_owned(), title: name.to_owned(), lines })
}

} // verus!
