//! The renderer: a deterministic textual preview of a request and of a
//! response, with headers sorted by name for display.

use vstd::prelude::*;
use vstd::string::*;
use vstd::seq_lib::lemma_multiset_commutative;
use crate::assemble::{header_views, AssembledRequest, HeaderField, RequestView};
use crate::collab::{media_essence, parse_media_essence, reason_phrase, status_reason};
use crate::item::Mode;
use crate::strutil::{dec_of, lex_lt, str_eq, str_lt, u64_to_dec};

verus! {

/// Stable insertion into a name-sorted sequence of header lines: the new
/// line goes after every line whose name does not come after its own.
pub open spec fn sorted_insert(fs: Seq<(Seq<char>, Seq<char>)>, h: (Seq<char>, Seq<char>)) -> Seq<
    (Seq<char>, Seq<char>),
>
    decreases fs.len(),
{
    if fs.len() == 0 {
        seq![h]
    } else if lex_lt(h.0, fs[0].0) {
        seq![h] + fs
    } else {
        seq![fs[0]] + sorted_insert(fs.drop_first(), h)
    }
}

/// The header lines sorted by name: a stable insertion sort, so lines
/// with equal names keep their relative order.
pub open spec fn sort_headers(fs: Seq<(Seq<char>, Seq<char>)>) -> Seq<(Seq<char>, Seq<char>)>
    decreases fs.len(),
{
    if fs.len() == 0 {
        Seq::empty()
    } else {
        sorted_insert(sort_headers(fs.drop_last()), fs.last())
    }
}

/// Lines in non-descending name order.
pub open spec fn sorted_by_name(fs: Seq<(Seq<char>, Seq<char>)>) -> bool {
    forall|i: int, j: int| 0 <= i < j < fs.len() ==> !lex_lt(fs[j].0, fs[i].0)
}

proof fn lemma_lex_lt_irrefl(a: Seq<char>)
    ensures
        !lex_lt(a, a),
    decreases a.len(),
{
    if a.len() > 0 {
        lemma_lex_lt_irrefl(a.drop_first());
    }
}

proof fn lemma_lex_lt_trans(a: Seq<char>, b: Seq<char>, c: Seq<char>)
    requires
        lex_lt(a, b),
        lex_lt(b, c),
    ensures
        lex_lt(a, c),
    decreases a.len(),
{
    if a.len() == 0 {
    } else if b.len() == 0 {
    } else if c.len() == 0 {
    } else {
        if a[0] == b[0] && b[0] == c[0] {
            lemma_lex_lt_trans(a.drop_first(), b.drop_first(), c.drop_first());
        }
    }
}

proof fn lemma_sorted_insert_sorted(fs: Seq<(Seq<char>, Seq<char>)>, h: (Seq<char>, Seq<char>))
    requires
        sorted_by_name(fs),
    ensures
        sorted_by_name(sorted_insert(fs, h)),
    decreases fs.len(),
{
    let out = sorted_insert(fs, h);
    if fs.len() == 0 {
    } else if lex_lt(h.0, fs[0].0) {
        assert forall|i: int, j: int| 0 <= i < j < out.len() implies !lex_lt(
            out[j].0,
            out[i].0,
        ) by {
            if i == 0 {
                assert(out[j] == fs[j - 1]);
                if lex_lt(out[j].0, h.0) {
                    lemma_lex_lt_trans(out[j].0, h.0, fs[0].0);
                    assert(lex_lt(fs[j - 1].0, fs[0].0));
                    if j == 1 {
                        lemma_lex_lt_irrefl(fs[0].0);
                    }
                }
            } else {
                assert(out[i] == fs[i - 1]);
                assert(out[j] == fs[j - 1]);
            }
        }
    } else {
        assert forall|i: int, j: int| 0 <= i < j < fs.drop_first().len() implies !lex_lt(
            fs.drop_first()[j].0,
            fs.drop_first()[i].0,
        ) by {
            assert(fs.drop_first()[i] == fs[i + 1]);
            assert(fs.drop_first()[j] == fs[j + 1]);
        }
        lemma_sorted_insert_sorted(fs.drop_first(), h);
        let rest = sorted_insert(fs.drop_first(), h);
        assert forall|i: int, j: int| 0 <= i < j < out.len() implies !lex_lt(
            out[j].0,
            out[i].0,
        ) by {
            if i == 0 {
                assert(out[0] == fs[0]);
                assert(out[j] == rest[j - 1]);
                lemma_sorted_insert_member(fs.drop_first(), h, j - 1);
                if lex_lt(out[j].0, fs[0].0) {
                    if rest[j - 1] == h {
                        crate::strutil::lemma_lex_lt_total(h.0, fs[0].0);
                    } else {
                        assert(fs.drop_first().contains(rest[j - 1]));
                        let k = choose|k: int|
                            0 <= k < fs.drop_first().len() && fs.drop_first()[k] == rest[j - 1];
                        assert(fs[k + 1] == rest[j - 1]);
                        assert(!lex_lt(fs[k + 1].0, fs[0].0));
                    }
                }
            } else {
                assert(out[i] == rest[i - 1]);
                assert(out[j] == rest[j - 1]);
            }
        }
    }
}

/// Every line of a stable insertion is either the inserted line or one of
/// the lines it was inserted among.
proof fn lemma_sorted_insert_member(
    fs: Seq<(Seq<char>, Seq<char>)>,
    h: (Seq<char>, Seq<char>),
    i: int,
)
    requires
        0 <= i < sorted_insert(fs, h).len(),
    ensures
        sorted_insert(fs, h)[i] == h || fs.contains(sorted_insert(fs, h)[i]),
    decreases fs.len(),
{
    let out = sorted_insert(fs, h);
    if fs.len() == 0 {
    } else if lex_lt(h.0, fs[0].0) {
        if i > 0 {
            assert(out[i] == fs[i - 1]);
        }
    } else {
        if i == 0 {
            assert(out[0] == fs[0]);
        } else {
            lemma_sorted_insert_member(fs.drop_first(), h, i - 1);
            let rest = sorted_insert(fs.drop_first(), h);
            assert(out[i] == rest[i - 1]);
            if rest[i - 1] != h {
                assert(fs.drop_first().contains(rest[i - 1]));
                let k = choose|k: int|
                    0 <= k < fs.drop_first().len() && fs.drop_first()[k] == rest[i - 1];
                assert(fs[k + 1] == rest[i - 1]);
            }
        }
    }
}

proof fn lemma_sorted_insert_multiset(fs: Seq<(Seq<char>, Seq<char>)>, h: (Seq<char>, Seq<char>))
    ensures
        sorted_insert(fs, h).to_multiset() == fs.to_multiset().insert(h),
    decreases fs.len(),
{
    broadcast use vstd::seq_lib::group_to_multiset_ensures;

    if fs.len() == 0 {
        assert(seq![h] =~= Seq::<(Seq<char>, Seq<char>)>::empty().push(h));
        assert(fs =~= Seq::<(Seq<char>, Seq<char>)>::empty());
        assert(sorted_insert(fs, h).to_multiset() =~= fs.to_multiset().insert(h));
    } else if lex_lt(h.0, fs[0].0) {
        lemma_multiset_commutative(seq![h], fs);
        assert(seq![h] =~= Seq::<(Seq<char>, Seq<char>)>::empty().push(h));
        assert(sorted_insert(fs, h).to_multiset() =~= fs.to_multiset().insert(h));
    } else {
        lemma_sorted_insert_multiset(fs.drop_first(), h);
        lemma_multiset_commutative(seq![fs[0]], sorted_insert(fs.drop_first(), h));
        assert(seq![fs[0]] =~= Seq::<(Seq<char>, Seq<char>)>::empty().push(fs[0]));
        assert(fs =~= seq![fs[0]] + fs.drop_first());
        lemma_multiset_commutative(seq![fs[0]], fs.drop_first());
        assert(sorted_insert(fs, h).to_multiset() =~= fs.to_multiset().insert(h));
    }
}

/// The displayed header order: sorting by name arranges the lines in
/// non-descending name order and keeps every line, so duplicate names
/// stay as separate lines.
pub proof fn lemma_sort_headers_ensures(fs: Seq<(Seq<char>, Seq<char>)>)
    ensures
        sorted_by_name(sort_headers(fs)),
        sort_headers(fs).to_multiset() == fs.to_multiset(),
    decreases fs.len(),
{
    broadcast use vstd::seq_lib::group_to_multiset_ensures;

    if fs.len() == 0 {
    } else {
        lemma_sort_headers_ensures(fs.drop_last());
        lemma_sorted_insert_sorted(sort_headers(fs.drop_last()), fs.last());
        lemma_sorted_insert_multiset(sort_headers(fs.drop_last()), fs.last());
        assert(fs =~= fs.drop_last().push(fs.last()));
        assert(sort_headers(fs).to_multiset() =~= fs.to_multiset());
    }
}

fn find_insert_pos(out: &Vec<HeaderField>, h: &HeaderField) -> (j: usize)
    ensures
        j <= out@.len(),
        forall|jj: int| 0 <= jj < j ==> !lex_lt(h@.0, header_views(out@)[jj].0),
        j < out@.len() ==> lex_lt(h@.0, header_views(out@)[j as int].0),
{
    let ghost hv = header_views(out@);
    let mut j: usize = 0;
    loop
        invariant
            j <= out@.len(),
            hv == header_views(out@),
            forall|jj: int| 0 <= jj < j ==> !lex_lt(h@.0, hv[jj].0),
        decreases out@.len() - j,
    {
        if j >= out.len() {
            return j;
        }
        proof {
            assert(hv[j as int] == (out@[j as int].name@, out@[j as int].value@));
        }
        if str_lt(h.name.as_str(), out[j].name.as_str()) {
            return j;
        }
        j += 1;
    }
}

fn insert_sorted_exec(out: &mut Vec<HeaderField>, h: HeaderField)
    ensures
        header_views(final(out)@) == sorted_insert(header_views(old(out)@), h@),
{
    let ghost hv = header_views(out@);
    let j = find_insert_pos(out, &h);
    out.insert(j, h);
    proof {
        lemma_sorted_insert_split(hv, h@, j as int);
        assert(header_views(out@) =~= hv.take(j as int) + seq![h@] + hv.skip(j as int));
    }
}

/// Where the scan of `insert_sorted_exec` stops, the spec insertion
/// splits the sequence.
proof fn lemma_sorted_insert_split(
    fs: Seq<(Seq<char>, Seq<char>)>,
    h: (Seq<char>, Seq<char>),
    j: int,
)
    requires
        0 <= j <= fs.len(),
        forall|jj: int| 0 <= jj < j ==> !lex_lt(h.0, fs[jj].0),
        j < fs.len() ==> lex_lt(h.0, fs[j].0),
    ensures
        sorted_insert(fs, h) == fs.take(j) + seq![h] + fs.skip(j),
    decreases fs.len(),
{
    if j == 0 {
        if fs.len() == 0 {
            assert(sorted_insert(fs, h) =~= fs.take(0) + seq![h] + fs.skip(0));
        } else {
            assert(sorted_insert(fs, h) =~= fs.take(0) + seq![h] + fs.skip(0));
        }
    } else {
        lemma_sorted_insert_split(fs.drop_first(), h, j - 1);
        assert(fs.drop_first().take(j - 1) =~= fs.take(j).drop_first());
        assert(fs.drop_first().skip(j - 1) =~= fs.skip(j));
        assert(sorted_insert(fs, h) =~= fs.take(j) + seq![h] + fs.skip(j));
    }
}

/// The header lines sorted by name for display.
pub fn sort_header_fields(hs: &Vec<HeaderField>) -> (r: Vec<HeaderField>)
    ensures
        header_views(r@) == sort_headers(header_views(hs@)),
{
    let mut out: Vec<HeaderField> = Vec::new();
    let ghost hv = header_views(hs@);
    let mut i: usize = 0;
    proof {
        assert(header_views(out@) =~= sort_headers(hv.take(0)));
    }
    while i < hs.len()
        invariant
            i <= hs@.len(),
            hv == header_views(hs@),
            header_views(out@) == sort_headers(hv.take(i as int)),
        decreases hs@.len() - i,
    {
        proof {
            assert(hv[i as int] == (hs@[i as int].name@, hs@[i as int].value@));
            assert(hv.take(i + 1).drop_last() =~= hv.take(i as int));
            assert(hv.take(i + 1).last() == hv[i as int]);
        }
        let h = HeaderField { name: hs[i].name.clone(), value: hs[i].value.clone() };
        insert_sorted_exec(&mut out, h);
        i += 1;
    }
    proof {
        assert(hv.take(hs@.len() as int) =~= hv);
    }
    out
}

/// One displayed header line.
pub open spec fn header_line_text(f: (Seq<char>, Seq<char>)) -> Seq<char> {
    f.0 + seq![':', ' '] + f.1 + seq!['\n']
}

/// The displayed header lines, in the given order.
pub open spec fn header_lines_text(fs: Seq<(Seq<char>, Seq<char>)>) -> Seq<char>
    decreases fs.len(),
{
    if fs.len() == 0 {
        Seq::empty()
    } else {
        header_lines_text(fs.drop_last()) + header_line_text(fs.last())
    }
}

/// Where the query part of a path/query text begins.
pub open spec fn path_end(pq: Seq<char>, i: int) -> int
    decreases pq.len() - i,
{
    if i < 0 || i >= pq.len() {
        pq.len() as int
    } else if pq[i] == '?' {
        i
    } else {
        path_end(pq, i + 1)
    }
}

/// The path component: the text before the first `?`.
pub open spec fn path_of(pq: Seq<char>) -> Seq<char> {
    pq.take(path_end(pq, 0))
}

fn path_of_exec(pq: &str) -> (r: &str)
    ensures
        r@ == path_of(pq@),
{
    let n = pq.unicode_len();
    let mut i: usize = 0;
    loop
        invariant
            i <= n,
            n == pq@.len(),
            path_end(pq@, 0) == path_end(pq@, i as int),
        decreases n - i,
    {
        if i >= n {
            return pq.substring_char(0, n);
        }
        if pq.get_char(i) == '?' {
            return pq.substring_char(0, i);
        }
        i += 1;
    }
}

/// The path/query text the preview reads; after normalization it is
/// always present.
pub open spec fn preview_path_source(r: RequestView) -> Seq<char> {
    match r.path_and_query {
        Some(p) => p,
        None => Seq::empty(),
    }
}

/// The request preview: start line, then the header lines sorted by
/// name. The body is previewed separately.
pub open spec fn request_preview_text(r: RequestView) -> Seq<char> {
    r.method + seq![' '] + path_of(preview_path_source(r)) + seq![' '] + "HTTP/1.1"@ + seq!['\n']
        + header_lines_text(sort_headers(r.headers))
}

fn append_header_lines(out: &mut String, sorted: &Vec<HeaderField>)
    ensures
        final(out)@ == old(out)@ + header_lines_text(header_views(sorted@)),
{
    let ghost sv = header_views(sorted@);
    let mut j: usize = 0;
    proof {
        assert(header_lines_text(sv.take(0)) =~= Seq::empty());
        assert(out@ =~= old(out)@ + header_lines_text(sv.take(0)));
    }
    while j < sorted.len()
        invariant
            j <= sorted@.len(),
            sv == header_views(sorted@),
            out@ == old(out)@ + header_lines_text(sv.take(j as int)),
        decreases sorted@.len() - j,
    {
        proof {
            assert(sv[j as int] == (sorted@[j as int].name@, sorted@[j as int].value@));
            assert(sv.take(j + 1).drop_last() =~= sv.take(j as int));
            assert(sv.take(j + 1).last() == sv[j as int]);
        }
        out.append(sorted[j].name.as_str());
        out.append(": ");
        out.append(sorted[j].value.as_str());
        out.append("\n");
        proof {
            reveal_strlit(": ");
            reveal_strlit("\n");
            assert(": "@ =~= seq![':', ' ']);
            assert("\n"@ =~= seq!['\n']);
            assert(out@ =~= old(out)@ + header_lines_text(sv.take(j + 1)));
        }
        j += 1;
    }
    proof {
        assert(sv.take(sorted@.len() as int) =~= sv);
    }
}

impl AssembledRequest {
    /// The deterministic preview of this request: method, path and
    /// protocol version on the start line, then the headers sorted by
    /// name. Rendering reads only the request's content, so equal
    /// requests render to byte-identical text.
    pub fn render_preview(&self) -> (r: String)
        ensures
            r@ == request_preview_text(self@),
    {
        let mut out = String::new();
        out.append(self.method.as_str());
        out.append(" ");
        match &self.uri.path_and_query {
            Some(pq) => {
                let p = path_of_exec(pq.as_str());
                out.append(p);
            },
            None => {},
        }
        out.append(" ");
        out.append("HTTP/1.1");
        out.append("\n");
        proof {
            reveal_strlit(" ");
            reveal_strlit("\n");
            assert(" "@ =~= seq![' ']);
            assert("\n"@ =~= seq!['\n']);
            if self.uri.path_and_query is None {
                assert(path_of(preview_path_source(self@)) =~= Seq::<char>::empty());
            }
            assert(out@ =~= self@.method + seq![' '] + path_of(preview_path_source(self@)) + seq![
                ' ',
            ] + "HTTP/1.1"@ + seq!['\n']);
        }
        let sorted = sort_header_fields(&self.headers);
        append_header_lines(&mut out, &sorted);
        out
    }
}

/// The response preview: protocol version, numeric status and its
/// canonical reason phrase, then the header lines sorted by name.
pub open spec fn response_preview_text(
    version: Seq<char>,
    status: u16,
    reason: Seq<char>,
    headers: Seq<(Seq<char>, Seq<char>)>,
) -> Seq<char> {
    version + seq![' '] + dec_of(status as nat) + seq![' '] + reason + seq!['\n']
        + header_lines_text(sort_headers(headers))
}

/// Renders the response preview, or nothing when the status code has no
/// canonical reason phrase.
pub fn render_response_preview(version: &str, status: u16, headers: &Vec<HeaderField>) -> (r:
    Option<String>)
    ensures
        r is Some <==> reason_phrase(status) is Some,
        r matches Some(t) ==> reason_phrase(status) matches Some(p) && t@ == response_preview_text(
            version@,
            status,
            p,
            header_views(headers@),
        ),
{
    match status_reason(status) {
        None => None,
        Some(reason) => {
            let mut out = String::new();
            out.append(version);
            out.append(" ");
            let code = u64_to_dec(status as u64);
            out.append(code.as_str());
            out.append(" ");
            out.append(reason.as_str());
            out.append("\n");
            proof {
                reveal_strlit(" ");
                reveal_strlit("\n");
                assert(" "@ =~= seq![' ']);
                assert("\n"@ =~= seq!['\n']);
            }
            let sorted = sort_header_fields(headers);
            append_header_lines(&mut out, &sorted);
            proof {
                assert(out@ =~= response_preview_text(
                    version@,
                    status,
                    reason@,
                    header_views(headers@),
                ));
            }
            Some(out)
        },
    }
}

/// The grammar a body is highlighted with.
#[derive(Clone, Copy, Debug, PartialEq, Eq, Structural)]
pub enum BodyLang {
    Json,
    Html,
    Plain,
}

/// The request body is always previewed under the JSON grammar, in
/// either mode; this matches the tool's observed behavior, form-encoded
/// bodies included.
pub fn request_body_language(_mode: Mode) -> (r: BodyLang)
    ensures
        r == BodyLang::Json,
{
    BodyLang::Json
}

/// The language a declared content type selects for the response body.
pub open spec fn lang_of_content_type(s: Seq<char>) -> Option<BodyLang> {
    match media_essence(s) {
        None => None,
        Some((t, sub)) => Some(
            if t == "text"@ && sub == "html"@ {
                BodyLang::Html
            } else if t == "application"@ && sub == "json"@ {
                BodyLang::Json
            } else {
                BodyLang::Plain
            },
        ),
    }
}

/// Picks the grammar for the response body: `text/html` and
/// `application/json` get their grammars, any other or no content type
/// renders plain. `None` when the declared content type is not a media
/// type.
pub fn response_body_language(content_type: Option<&str>) -> (r: Option<BodyLang>)
    ensures
        content_type is None ==> r == Some(BodyLang::Plain),
        content_type matches Some(ct) ==> r == lang_of_content_type(ct@),
{
    match content_type {
        None => Some(BodyLang::Plain),
        Some(ct) => match parse_media_essence(ct) {
            None => None,
            Some((t, sub)) => {
                if str_eq(t.as_str(), "text") && str_eq(sub.as_str(), "html") {
                    Some(BodyLang::Html)
                } else if str_eq(t.as_str(), "application") && str_eq(sub.as_str(), "json") {
                    Some(BodyLang::Json)
                } else {
                    Some(BodyLang::Plain)
                }
            },
        },
    }
}

/// A non-empty body as displayed: with a trailing newline ensured.
pub open spec fn terminated_body(b: Seq<char>) -> Seq<char> {
    if b.len() == 0 || b.last() == '\n' {
        b
    } else {
        b.push('\n')
    }
}

/// Appends the newline that a displayed body must end with, when it is
/// non-empty and does not already end in one.
pub fn body_with_newline(body: &str) -> (r: String)
    ensures
        r@ == terminated_body(body@),
{
    let n = body.unicode_len();
    let mut out = body.to_owned();
    if n > 0 && body.get_char(n - 1) != '\n' {
        out.append("\n");
        proof {
            reveal_strlit("\n");
            assert(out@ =~= terminated_body(body@));
        }
    }
    out
}

/// Rendering is a function of the request's content alone: two requests
/// with the same view have byte-identical preview text.
pub proof fn lemma_preview_deterministic(a: AssembledRequest, b: AssembledRequest)
    requires
        a@ == b@,
    ensures
        request_preview_text(a@) == request_preview_text(b@),
{
}

} // verus!
