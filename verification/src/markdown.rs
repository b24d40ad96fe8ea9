//! Markdown documentation rendered to HTML, with an anchor id on every heading.
use crate::highlight::{alphanumeric, is_alnum};
use crate::strings::{decimal, push_char, push_decimal, push_str, white_space};
use crate::text::{str_eq, text_chars};
use pulldown_cmark::{CowStr, Event, Options, Parser, Tag, TagEnd};
use vstd::prelude::*;

verus! {

/// The parts of a markdown event that heading anchors depend on.
pub enum MdEvent {
    /// The start of a heading.
    HeadingStart,
    /// The end of a heading.
    HeadingEnd,
    /// Text.
    Text(String),
    /// Inline code.
    Code(String),
    /// Any other event.
    Other,
}

/// The mathematical value of a markdown event.
pub enum MdEventView {
    HeadingStart,
    HeadingEnd,
    Text(Seq<char>),
    Code(Seq<char>),
    Other,
}

impl View for MdEvent {
    type V = MdEventView;

    open spec fn view(&self) -> MdEventView {
        match self {
            MdEvent::HeadingStart => MdEventView::HeadingStart,
            MdEvent::HeadingEnd => MdEventView::HeadingEnd,
            MdEvent::Text(t) => MdEventView::Text(t@),
            MdEvent::Code(t) => MdEventView::Code(t@),
            MdEvent::Other => MdEventView::Other,
        }
    }
}

/// The views of a sequence of events.
pub open spec fn event_views(v: Seq<MdEvent>) -> Seq<MdEventView> {
    v.map_values(|e: MdEvent| e@)
}

/// The views of a sequence of optional strings.
pub open spec fn opt_views(v: Seq<Option<String>>) -> Seq<Option<Seq<char>>> {
    v.map_values(|o: Option<String>| crate::editor::opt_view(o))
}

/// The events pulldown-cmark parses from `markdown` (all extensions on).
pub uninterp spec fn markdown_events(markdown: Seq<char>) -> Seq<MdEventView>;

/// The HTML pulldown-cmark renders from `markdown` (all extensions on), with
/// the heading starting at event `k` given the id `ids[k]` when it is some.
pub uninterp spec fn rendered_markdown(markdown: Seq<char>, ids: Seq<Option<Seq<char>>>) -> Seq<char>;

/// `pulldown_cmark::Parser::new_ext` with all options: the events of
/// `markdown`, each reduced to what heading anchors need. The result is named
/// by `markdown_events`.
#[verifier::external_body]
fn parse_events(markdown: &str) -> (r: Vec<MdEvent>)
    ensures
        event_views(r@) == markdown_events(markdown@),
{
    Parser::new_ext(markdown, Options::all()).map(|e| match e {
        Event::Start(Tag::Heading { .. }) => MdEvent::HeadingStart,
        Event::End(TagEnd::Heading(_)) => MdEvent::HeadingEnd,
        Event::Text(t) => MdEvent::Text(t.to_string()),
        Event::Code(t) => MdEvent::Code(t.to_string()),
        _ => MdEvent::Other,
    }).collect()
}

/// `pulldown_cmark::html::push_html` over the events of `markdown` (parsed
/// with all options), the heading starting at event `k` taking the id
/// `ids[k]` when it is some. The result is named by `rendered_markdown`.
#[verifier::external_body]
fn render_events(markdown: &str, ids: Vec<Option<String>>) -> (r: String)
    ensures
        r@ == rendered_markdown(markdown@, opt_views(ids@)),
{
    let events = Parser::new_ext(markdown, Options::all()).zip(ids.into_iter().chain(std::iter::repeat(None))).map(|(e, id)| match (e, id) {
        (Event::Start(Tag::Heading { level, classes, attrs, .. }), Some(id)) =>
            Event::Start(Tag::Heading { level, id: Some(CowStr::Boxed(id.into_boxed_str())), classes, attrs }),
        (e, _) => e,
    });
    let mut html = String::new();
    pulldown_cmark::html::push_html(&mut html, events);
    html
}

/// `c` with ASCII capitals lowered.
pub open spec fn ascii_lower(c: char) -> char {
    if 'A' <= c && c <= 'Z' {
        ((c as u32) + 32) as char
    } else {
        c
    }
}

/// The slug of `s` before trailing dashes are dropped: alphanumerics (ASCII
/// lowered) are kept, white space, `-` and `_` become `-` once something is
/// kept, everything else is dropped.
pub open spec fn slug_raw(s: Seq<char>) -> Seq<char>
    decreases s.len(),
{
    if s.len() == 0 {
        Seq::empty()
    } else {
        let r = slug_raw(s.drop_last());
        let c = s.last();
        if alphanumeric(c) {
            r.push(ascii_lower(c))
        } else if (white_space(c) || c == '-' || c == '_') && r.len() > 0 {
            r.push('-')
        } else {
            r
        }
    }
}

/// `s` without its trailing dashes.
pub open spec fn trim_dashes(s: Seq<char>) -> Seq<char>
    decreases s.len(),
{
    if s.len() > 0 && s.last() == '-' {
        trim_dashes(s.drop_last())
    } else {
        s
    }
}

/// The anchor slug of a heading's text.
pub open spec fn slug(s: Seq<char>) -> Seq<char> {
    trim_dashes(slug_raw(s))
}

/// The raw slug starts with a kept alphanumeric character.
proof fn lemma_slug_raw_start(s: Seq<char>)
    ensures
        slug_raw(s).len() > 0 ==> exists|c: char| #[trigger] alphanumeric(c) && slug_raw(s)[0] == ascii_lower(c),
    decreases s.len(),
{
    if s.len() > 0 {
        lemma_slug_raw_start(s.drop_last());
        let r = slug_raw(s.drop_last());
        if r.len() > 0 {
            let c = choose|c: char| #[trigger] alphanumeric(c) && r[0] == ascii_lower(c);
            assert(slug_raw(s)[0] == r[0]);
        } else if alphanumeric(s.last()) {
            assert(slug_raw(s)[0] == ascii_lower(s.last()));
        }
    }
}

/// Dropping trailing dashes keeps the start of the text.
proof fn lemma_trim_dashes(s: Seq<char>)
    ensures
        trim_dashes(s).len() <= s.len(),
        trim_dashes(s) == s.take(trim_dashes(s).len() as int),
        trim_dashes(s).len() > 0 ==> trim_dashes(s).last() != '-',
    decreases s.len(),
{
    if s.len() > 0 && s.last() == '-' {
        lemma_trim_dashes(s.drop_last());
        assert(s.drop_last().take(trim_dashes(s).len() as int) =~= s.take(trim_dashes(s).len() as int));
    } else {
        assert(s.take(s.len() as int) =~= s);
    }
}

/// A heading's slug starts with an alphanumeric character (ASCII lowered)
/// and does not end with a dash.
pub proof fn lemma_slug_ends(s: Seq<char>)
    ensures
        slug(s).len() > 0 ==> slug(s).last() != '-',
        slug(s).len() > 0 ==> exists|c: char| #[trigger] alphanumeric(c) && slug(s)[0] == ascii_lower(c),
{
    lemma_slug_raw_start(s);
    lemma_trim_dashes(slug_raw(s));
    if slug(s).len() > 0 {
        assert(slug(s)[0] == slug_raw(s)[0]);
    }
}

/// Lower an ASCII capital.
fn lower_ascii(c: char) -> (r: char)
    ensures
        r == ascii_lower(c),
{
    if c >= 'A' && c <= 'Z' {
        ((c as u8) + 32) as char
    } else {
        c
    }
}

/// The anchor slug of a heading's text: alphanumerics lowered, each white
/// space, `-` or `_` after the first kept character becoming one dash (so a
/// run of them gives a run of dashes), other characters dropped, and no
/// trailing dash.
pub fn slugify(text: &str) -> (r: String)
    ensures
        r@ == slug(text@),
{
    let cs = text_chars(text);
    let mut raw: Vec<char> = Vec::new();
    let mut k: usize = 0;
    while k < cs.len()
        invariant
            cs@ == text@,
            0 <= k <= cs@.len(),
            raw@ == slug_raw(cs@.take(k as int)),
        decreases cs@.len() - k,
    {
        proof {
            assert(cs@.take(k as int + 1).drop_last() =~= cs@.take(k as int));
        }
        let c = cs[k];
        if is_alnum(c) {
            raw.push(lower_ascii(c));
        } else if (crate::strings::is_white(c) || c == '-' || c == '_') && raw.len() > 0 {
            raw.push('-');
        }
        k = k + 1;
    }
    assert(cs@.take(cs@.len() as int) =~= cs@);
    let mut n = raw.len();
    assert(raw@.take(n as int) =~= raw@);
    while n > 0 && raw[n - 1] == '-'
        invariant
            n <= raw@.len(),
            trim_dashes(raw@) == trim_dashes(raw@.take(n as int)),
        decreases n,
    {
        assert(raw@.take(n as int).drop_last() =~= raw@.take(n - 1));
        n = n - 1;
    }
    let mut out = String::new();
    let mut j: usize = 0;
    while j < n
        invariant
            j <= n <= raw@.len(),
            out@ == raw@.take(j as int),
        decreases n - j,
    {
        push_char(&mut out, raw[j]);
        assert(out@ =~= raw@.take(j + 1));
        j = j + 1;
    }
    assert(raw@.take(n as int) == trim_dashes(raw@.take(n as int)));
    out
}

/// The text of a heading whose content starts at event `j`: its text and
/// code, up to the heading's end; with the index of that end (the number of
/// events when there is none).
pub open spec fn heading_text(ev: Seq<MdEventView>, j: int) -> (Seq<char>, int)
    decreases ev.len() - j,
{
    if j < 0 || j >= ev.len() {
        (Seq::empty(), ev.len() as int)
    } else {
        match ev[j] {
            MdEventView::HeadingEnd => (Seq::empty(), j),
            MdEventView::Text(t) => {
                let (r, e) = heading_text(ev, j + 1);
                (t + r, e)
            },
            MdEventView::Code(t) => {
                let (r, e) = heading_text(ev, j + 1);
                (t + r, e)
            },
            _ => heading_text(ev, j + 1),
        }
    }
}

pub proof fn lemma_heading_text_end(ev: Seq<MdEventView>, j: int)
    requires
        0 <= j <= ev.len(),
    ensures
        j <= heading_text(ev, j).1 <= ev.len(),
    decreases ev.len() - j,
{
    if j < ev.len() {
        lemma_heading_text_end(ev, j + 1);
    }
}

/// How often `x` occurs in `s`.
pub open spec fn occurrences(s: Seq<Seq<char>>, x: Seq<char>) -> nat
    decreases s.len(),
{
    if s.len() == 0 {
        0
    } else {
        occurrences(s.drop_last(), x) + if s.last() == x { 1nat } else { 0nat }
    }
}

/// A heading's anchor id: its slug, with `-n` added when `n` earlier
/// headings had the same slug.
pub open spec fn anchor_id(base: Seq<char>, n: nat) -> Seq<char> {
    if n == 0 {
        base
    } else {
        base + "-"@ + decimal(n)
    }
}

/// `n` times no id.
pub open spec fn no_ids(n: int) -> Seq<Option<Seq<char>>> {
    Seq::new(if n < 0 { 0 } else { n as nat }, |k: int| None)
}

/// The anchor ids of the events from `i` on, one per event: each heading
/// start gets the anchor of its text (given the slugs `seen` before it), other
/// events none. The events of a heading are not looked at again.
pub open spec fn heading_ids_from(ev: Seq<MdEventView>, i: int, seen: Seq<Seq<char>>) -> Seq<Option<Seq<char>>>
    decreases ev.len() - i,
{
    if i < 0 || i >= ev.len() {
        Seq::empty()
    } else if ev[i] is HeadingStart {
        let (text, e) = heading_text(ev, i + 1);
        proof {
            lemma_heading_text_end(ev, i + 1);
        }
        let base = slug(text);
        let id = anchor_id(base, occurrences(seen, base));
        if e >= ev.len() {
            seq![Some(id)] + no_ids(ev.len() - i - 1)
        } else {
            seq![Some(id)] + no_ids(e - i) + heading_ids_from(ev, e + 1, seen.push(base))
        }
    } else {
        seq![None] + heading_ids_from(ev, i + 1, seen)
    }
}

/// The anchor ids of all events (see `heading_ids_from`).
pub open spec fn anchor_ids(ev: Seq<MdEventView>) -> Seq<Option<Seq<char>>> {
    heading_ids_from(ev, 0, Seq::empty())
}

/// The views of a sequence of strings.
pub open spec fn text_views(v: Seq<String>) -> Seq<Seq<char>> {
    v.map_values(|s: String| s@)
}

/// How often `x` occurs in `seen`.
fn count_seen(seen: &Vec<String>, x: &str) -> (r: usize)
    ensures
        r == occurrences(text_views(seen@), x@),
{
    let mut n: usize = 0;
    let mut k: usize = 0;
    while k < seen.len()
        invariant
            0 <= k <= seen@.len(),
            n == occurrences(text_views(seen@).take(k as int), x@),
            n <= k,
        decreases seen@.len() - k,
    {
        proof {
            assert(text_views(seen@).take(k as int + 1).drop_last() =~= text_views(seen@).take(k as int));
        }
        if str_eq(seen[k].as_str(), x) {
            n = n + 1;
        }
        k = k + 1;
    }
    assert(text_views(seen@).take(seen@.len() as int) =~= text_views(seen@));
    n
}

/// The text of the heading whose content starts at event `j`, and the index of
/// its end (see `heading_text`).
fn collect_heading_text(events: &Vec<MdEvent>, j: usize) -> (r: (String, usize))
    requires
        j <= events@.len(),
    ensures
        (r.0@, r.1 as int) == heading_text(event_views(events@), j as int),
{
    let ghost ev = event_views(events@);
    let mut text = String::new();
    let mut k = j;
    proof {
        lemma_heading_text_end(ev, j as int);
    }
    while k < events.len()
        invariant
            ev == event_views(events@),
            j <= k <= events@.len(),
            heading_text(ev, j as int).0 == text@ + heading_text(ev, k as int).0,
            heading_text(ev, j as int).1 == heading_text(ev, k as int).1,
        decreases events@.len() - k,
    {
        let ghost t0 = text@;
        match &events[k] {
            MdEvent::HeadingEnd => {
                assert(heading_text(ev, k as int).0 =~= Seq::<char>::empty());
                assert(text@ + Seq::<char>::empty() =~= text@);
                return (text, k);
            },
            MdEvent::Text(t) => {
                push_str(&mut text, t.as_str());
                assert(t0 + heading_text(ev, k as int).0 =~= text@ + heading_text(ev, k + 1).0);
            },
            MdEvent::Code(t) => {
                push_str(&mut text, t.as_str());
                assert(t0 + heading_text(ev, k as int).0 =~= text@ + heading_text(ev, k + 1).0);
            },
            _ => {},
        }
        k = k + 1;
    }
    assert(text@ + Seq::<char>::empty() =~= text@);
    (text, k)
}

/// The anchor id of every heading start (see `anchor_ids`), one entry per
/// event; ids are unique: a repeated slug gets `-1`, `-2`, ... added.
pub fn heading_ids(events: &Vec<MdEvent>) -> (r: Vec<Option<String>>)
    ensures
        opt_views(r@) == anchor_ids(event_views(events@)),
{
    let ghost ev = event_views(events@);
    let mut out: Vec<Option<String>> = Vec::new();
    let mut seen: Vec<String> = Vec::new();
    let mut i: usize = 0;
    let total = events.len();
    proof {
        assert(opt_views(out@) + heading_ids_from(ev, 0, Seq::empty()) =~= heading_ids_from(ev, 0, Seq::empty()));
        assert(text_views(seen@) =~= Seq::<Seq<char>>::empty());
    }
    while i < events.len()
        invariant
            ev == event_views(events@),
            total == events@.len(),
            i <= events@.len(),
            out@.len() == i,
            seen@.len() <= i,
            opt_views(out@) + heading_ids_from(ev, i as int, text_views(seen@)) == anchor_ids(ev),
        decreases events@.len() - i,
    {
        let ghost before = opt_views(out@);
        let ghost sv = text_views(seen@);
        match &events[i] {
            MdEvent::HeadingStart => {
                let (text, e) = collect_heading_text(events, i + 1);
                proof {
                    lemma_heading_text_end(ev, i + 1);
                }
                let base = slugify(text.as_str());
                let count = count_seen(&seen, base.as_str());
                let mut id = String::new();
                push_str(&mut id, base.as_str());
                proof {
                    reveal_strlit("-");
                }
                if count > 0 {
                    push_char(&mut id, '-');
                    push_decimal(&mut id, count as u64);
                    assert(id@ =~= base@ + "-"@ + decimal(count as nat));
                } else {
                    assert(id@ =~= base@);
                }
                assert(id@ =~= anchor_id(base@, occurrences(sv, base@)));
                out.push(Some(id));
                let stop = if e < events.len() { e } else { events.len() - 1 };
                let mut k = i + 1;
                while k <= stop
                    invariant
                        i + 1 <= k <= stop + 1,
                        stop < events@.len(),
                        total == events@.len(),
                        out@.len() == k,
                        opt_views(out@) == before + seq![Some(anchor_id(base@, occurrences(sv, base@)))] + no_ids(k - i - 1),
                    decreases stop + 1 - k,
                {
                    let ghost o0 = opt_views(out@);
                    out.push(None);
                    assert(opt_views(out@) =~= o0.push(None));
                    assert(no_ids(k - i) =~= no_ids(k - i - 1).push(None));
                    assert(opt_views(out@) =~= before + seq![Some(anchor_id(base@, occurrences(sv, base@)))] + no_ids(k + 1 - i - 1));
                    k = k + 1;
                }
                let ghost s0 = seen@;
                seen.push(base);
                assert(text_views(seen@) =~= sv.push(slug(text@)));
                if e < events.len() {
                    proof {
                        assert(opt_views(out@) + heading_ids_from(ev, e + 1, text_views(seen@)) =~= before + heading_ids_from(ev, i as int, sv));
                    }
                    i = e + 1;
                } else {
                    proof {
                        assert(heading_ids_from(ev, events@.len() as int, text_views(seen@)) =~= Seq::<Option<Seq<char>>>::empty());
                        assert(opt_views(out@) + heading_ids_from(ev, events@.len() as int, text_views(seen@)) =~= before + heading_ids_from(ev, i as int, sv));
                    }
                    i = events.len();
                }
            },
            _ => {
                let ghost o0 = opt_views(out@);
                out.push(None);
                assert(opt_views(out@) =~= o0.push(None));
                assert(opt_views(out@) + heading_ids_from(ev, i + 1, sv) =~= before + heading_ids_from(ev, i as int, sv));
                i = i + 1;
            },
        }
    }
    assert(heading_ids_from(ev, i as int, text_views(seen@)) =~= Seq::<Option<Seq<char>>>::empty());
    assert(opt_views(out@) =~= anchor_ids(ev));
    out
}

/// Convert markdown to HTML, giving every heading a unique anchor id (its
/// slug, numbered when repeated).
pub fn markdown_to_html(markdown: &str) -> (r: String)
    ensures
        r@ == rendered_markdown(markdown@, anchor_ids(markdown_events(markdown@))),
{
    let events = parse_events(markdown);
    let ids = heading_ids(&events);
    render_events(markdown, ids)
}

} // verus!
