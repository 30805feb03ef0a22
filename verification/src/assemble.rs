//! The request assembler: method, URI, mode and the ordered request items
//! become headers and a serialized body.
//!
//! `FormFile` and `SearchParam` items are recognized and typed by the
//! parser but deliberately not folded into the body or the query string
//! here: multipart upload and query building are not wired in yet, and
//! inventing a behavior for them would change what the tool sends.

use vstd::prelude::*;
use vstd::string::*;
use vstd::utf8::encode_utf8;
use crate::collab::{json_quote, json_quoted, url_encode, url_enc};
use crate::item::{Mode, RequestItem};
use crate::strutil::{dec_of, str_eq, u64_to_dec};

verus! {

/// One header line. The same name may appear on several lines.
#[derive(Clone, Debug, PartialEq, Eq)]
pub struct HeaderField {
    pub name: String,
    pub value: String,
}

impl View for HeaderField {
    type V = (Seq<char>, Seq<char>);

    open spec fn view(&self) -> (Seq<char>, Seq<char>) {
        (self.name@, self.value@)
    }
}

/// The header lines as pairs of character sequences.
pub open spec fn header_views(s: Seq<HeaderField>) -> Seq<(Seq<char>, Seq<char>)> {
    s.map_values(|h: HeaderField| h@)
}

/// The components of a request URI, each as plain text.
#[derive(Clone, Debug, PartialEq, Eq)]
pub struct UriParts {
    pub scheme: Option<String>,
    pub authority: Option<String>,
    pub path_and_query: Option<String>,
}

pub open spec fn opt_text(o: Option<String>) -> Option<Seq<char>> {
    match o {
        Some(s) => Some(s@),
        None => None,
    }
}

impl View for UriParts {
    type V = (Option<Seq<char>>, Option<Seq<char>>, Option<Seq<char>>);

    open spec fn view(&self) -> (Option<Seq<char>>, Option<Seq<char>>, Option<Seq<char>>) {
        (opt_text(self.scheme), opt_text(self.authority), opt_text(self.path_and_query))
    }
}

/// URI normalization: an absent scheme defaults to `http`, an absent
/// path defaults to `/`; the authority and an existing path/query pass
/// through unchanged.
pub open spec fn normalized_uri(u: (Option<Seq<char>>, Option<Seq<char>>, Option<Seq<char>>)) -> (
    Option<Seq<char>>,
    Option<Seq<char>>,
    Option<Seq<char>>,
) {
    (
        match u.0 {
            Some(s) => Some(s),
            None => Some("http"@),
        },
        u.1,
        match u.2 {
            Some(p) => Some(p),
            None => Some("/"@),
        },
    )
}

impl UriParts {
    /// Applies the URI defaults.
    pub fn normalize(self) -> (r: UriParts)
        ensures
            r@ == normalized_uri(self@),
    {
        let scheme = match self.scheme {
            Some(s) => Some(s),
            None => Some("http".to_owned()),
        };
        let path_and_query = match self.path_and_query {
            Some(p) => Some(p),
            None => Some("/".to_owned()),
        };
        UriParts { scheme, authority: self.authority, path_and_query }
    }
}

/// Whether an item contributes a body field.
pub open spec fn is_body_item(it: RequestItem) -> bool {
    match it {
        RequestItem::Data { .. } => true,
        RequestItem::JsonData { .. } => true,
        _ => false,
    }
}

/// The key of an item.
pub open spec fn item_key(it: RequestItem) -> Seq<char> {
    match it {
        RequestItem::Data { key, .. } => key@,
        RequestItem::FormFile { key, .. } => key@,
        RequestItem::Header { key, .. } => key@,
        RequestItem::JsonData { key, .. } => key@,
        RequestItem::SearchParam { key, .. } => key@,
    }
}

/// What a body item contributes as a JSON object member: a plain data
/// value as its JSON string literal, a JSON data value verbatim (it is
/// already compact JSON text).
pub open spec fn member_text(it: RequestItem) -> Seq<char>
    recommends
        is_body_item(it),
{
    match it {
        RequestItem::Data { value, .. } => json_quoted(value@),
        RequestItem::JsonData { value, .. } => value@,
        _ => Seq::empty(),
    }
}

/// The raw text a body item contributes to a form body, before
/// percent-encoding.
pub open spec fn form_value_text(it: RequestItem) -> Seq<char>
    recommends
        is_body_item(it),
{
    match it {
        RequestItem::Data { value, .. } => value@,
        RequestItem::JsonData { value, .. } => value@,
        _ => Seq::empty(),
    }
}

/// The position of the first field with key `k`, if any.
pub open spec fn find_key(fs: Seq<(Seq<char>, Seq<char>)>, k: Seq<char>) -> Option<int>
    decreases fs.len(),
{
    if fs.len() == 0 {
        None
    } else if fs[0].0 == k {
        Some(0int)
    } else {
        match find_key(fs.drop_first(), k) {
            Some(i) => Some(i + 1),
            None => None,
        }
    }
}

/// Insert-or-overwrite: a repeated key keeps its first position and takes
/// the later value; a new key goes to the end.
pub open spec fn upsert(fs: Seq<(Seq<char>, Seq<char>)>, k: Seq<char>, v: Seq<char>) -> Seq<
    (Seq<char>, Seq<char>),
> {
    match find_key(fs, k) {
        None => fs.push((k, v)),
        Some(i) => fs.update(i, (k, v)),
    }
}

/// The key/member pairs of the JSON body object: items folded in input
/// order, duplicate keys resolved last-write-wins.
pub open spec fn json_fields(items: Seq<RequestItem>) -> Seq<(Seq<char>, Seq<char>)>
    decreases items.len(),
{
    if items.len() == 0 {
        Seq::empty()
    } else {
        let pre = json_fields(items.drop_last());
        let it = items.last();
        if is_body_item(it) {
            upsert(pre, item_key(it), member_text(it))
        } else {
            pre
        }
    }
}

/// No key names two members.
pub open spec fn keys_unique(fs: Seq<(Seq<char>, Seq<char>)>) -> bool {
    forall|i: int, j: int| 0 <= i < j < fs.len() ==> fs[i].0 != fs[j].0
}

/// One JSON object member: the quoted key, a colon, the member text.
pub open spec fn json_member_text(f: (Seq<char>, Seq<char>)) -> Seq<char> {
    json_quoted(f.0) + seq![':'] + f.1
}

/// The members of the JSON body object, separated by commas.
pub open spec fn json_members_text(fs: Seq<(Seq<char>, Seq<char>)>) -> Seq<char>
    decreases fs.len(),
{
    if fs.len() == 0 {
        Seq::empty()
    } else if fs.len() == 1 {
        json_member_text(fs[0])
    } else {
        json_members_text(fs.drop_last()) + seq![','] + json_member_text(fs.last())
    }
}

/// The JSON-mode body: one compact object, or empty when no item
/// contributes a field.
pub open spec fn json_body_text(items: Seq<RequestItem>) -> Seq<char> {
    let fs = json_fields(items);
    if fs.len() == 0 {
        Seq::empty()
    } else {
        seq!['{'] + json_members_text(fs) + seq!['}']
    }
}

/// One form pair: percent-encoded key, `=`, percent-encoded value.
pub open spec fn form_pair_text(it: RequestItem) -> Seq<char>
    recommends
        is_body_item(it),
{
    url_enc(encode_utf8(item_key(it))) + seq!['='] + url_enc(encode_utf8(form_value_text(it)))
}

/// The form-mode body: every body item in input order (duplicates kept),
/// pairs joined by `&`.
pub open spec fn form_body_text(items: Seq<RequestItem>) -> Seq<char>
    decreases items.len(),
{
    if items.len() == 0 {
        Seq::empty()
    } else {
        let pre = form_body_text(items.drop_last());
        let it = items.last();
        if is_body_item(it) {
            if pre.len() == 0 {
                form_pair_text(it)
            } else {
                pre + seq!['&'] + form_pair_text(it)
            }
        } else {
            pre
        }
    }
}

/// The body under the given mode.
pub open spec fn body_text(mode: Mode, items: Seq<RequestItem>) -> Seq<char> {
    match mode {
        Mode::Json => json_body_text(items),
        Mode::Form => form_body_text(items),
    }
}

/// The header lines contributed by `Header` items, in input order.
pub open spec fn item_headers(items: Seq<RequestItem>) -> Seq<(Seq<char>, Seq<char>)>
    decreases items.len(),
{
    if items.len() == 0 {
        Seq::empty()
    } else {
        let pre = item_headers(items.drop_last());
        match items.last() {
            RequestItem::Header { key, value } => pre.push((key@, value@)),
            _ => pre,
        }
    }
}

/// The content type declared for a non-empty body in each mode.
pub open spec fn content_type_text(mode: Mode) -> Seq<char> {
    match mode {
        Mode::Json => "application/json"@,
        Mode::Form => "application/x-www-form-urlencoded"@,
    }
}

/// The length in bytes of a text's UTF-8 encoding.
pub open spec fn byte_len(s: Seq<char>) -> nat {
    (encode_utf8(s).len() as usize) as nat
}

/// Whether some `Header` item carries exactly this name.
pub open spec fn items_name_header(items: Seq<RequestItem>, name: Seq<char>) -> bool {
    exists|i: int|
        0 <= i < items.len() && ((#[trigger] items[i]) matches RequestItem::Header {
            key,
            value: _,
        } && key@ == name)
}

/// The `accept` and `user-agent` default lines, each omitted when an
/// explicit header item of the same name overrides it. Header items
/// carry parser-normalized lowercase names, so exact equality decides.
pub open spec fn default_headers(items: Seq<RequestItem>) -> Seq<(Seq<char>, Seq<char>)> {
    (if items_name_header(items, "accept"@) {
        Seq::<(Seq<char>, Seq<char>)>::empty()
    } else {
        seq![("accept"@, "*/*"@)]
    }) + (if items_name_header(items, "user-agent"@) {
        Seq::<(Seq<char>, Seq<char>)>::empty()
    } else {
        seq![("user-agent"@, "reqcraft/0.1.0"@)]
    })
}

/// All request headers in application order: the defaults that no header
/// item overrides, the header items, then the content headers when the
/// body is non-empty. The content length counts the UTF-8 bytes of the
/// body.
pub open spec fn assembled_headers(mode: Mode, items: Seq<RequestItem>) -> Seq<
    (Seq<char>, Seq<char>),
> {
    let base = default_headers(items) + item_headers(items);
    let body = body_text(mode, items);
    if body.len() == 0 {
        base
    } else {
        base + seq![
            ("content-type"@, content_type_text(mode)),
            ("content-length"@, dec_of(byte_len(body))),
        ]
    }
}

/// The fully resolved request, ready to hand to an HTTP client and to
/// the renderer.
#[derive(Clone, Debug)]
pub struct AssembledRequest {
    pub method: String,
    pub uri: UriParts,
    pub headers: Vec<HeaderField>,
    pub body: String,
    pub mode: Mode,
}

/// The mathematical content of an assembled request.
pub ghost struct RequestView {
    pub method: Seq<char>,
    pub scheme: Option<Seq<char>>,
    pub authority: Option<Seq<char>>,
    pub path_and_query: Option<Seq<char>>,
    pub headers: Seq<(Seq<char>, Seq<char>)>,
    pub body: Seq<char>,
    pub mode: Mode,
}

impl View for AssembledRequest {
    type V = RequestView;

    open spec fn view(&self) -> RequestView {
        RequestView {
            method: self.method@,
            scheme: opt_text(self.uri.scheme),
            authority: opt_text(self.uri.authority),
            path_and_query: opt_text(self.uri.path_and_query),
            headers: header_views(self.headers@),
            body: self.body@,
            mode: self.mode,
        }
    }
}

/// A field of the JSON body object while it is being collected.
#[derive(Clone, Debug)]
struct Field {
    key: String,
    text: String,
}

spec fn field_views(s: Seq<Field>) -> Seq<(Seq<char>, Seq<char>)> {
    s.map_values(|f: Field| (f.key@, f.text@))
}

proof fn lemma_find_key_first(fs: Seq<(Seq<char>, Seq<char>)>, k: Seq<char>)
    ensures
        match find_key(fs, k) {
            Some(i) => 0 <= i < fs.len() && fs[i].0 == k && (forall|j: int|
                0 <= j < i ==> fs[j].0 != k),
            None => forall|j: int| 0 <= j < fs.len() ==> fs[j].0 != k,
        },
    decreases fs.len(),
{
    if fs.len() > 0 && fs[0].0 != k {
        lemma_find_key_first(fs.drop_first(), k);
        assert forall|j: int| 1 <= j < fs.len() implies fs[j].0 == fs.drop_first()[j - 1].0 by {}
    }
}

proof fn lemma_find_key_at(fs: Seq<(Seq<char>, Seq<char>)>, k: Seq<char>, i: int)
    requires
        0 <= i < fs.len(),
        fs[i].0 == k,
        forall|j: int| 0 <= j < i ==> fs[j].0 != k,
    ensures
        find_key(fs, k) == Some(i),
    decreases fs.len(),
{
    if i > 0 {
        lemma_find_key_at(fs.drop_first(), k, i - 1);
    }
}

proof fn lemma_find_key_none(fs: Seq<(Seq<char>, Seq<char>)>, k: Seq<char>)
    requires
        forall|j: int| 0 <= j < fs.len() ==> fs[j].0 != k,
    ensures
        find_key(fs, k) is None,
    decreases fs.len(),
{
    if fs.len() > 0 {
        lemma_find_key_none(fs.drop_first(), k);
    }
}

proof fn lemma_upsert_keys_unique(fs: Seq<(Seq<char>, Seq<char>)>, k: Seq<char>, v: Seq<char>)
    requires
        keys_unique(fs),
    ensures
        keys_unique(upsert(fs, k, v)),
{
    lemma_find_key_first(fs, k);
    let out = upsert(fs, k, v);
    match find_key(fs, k) {
        None => {
            assert forall|i: int, j: int| 0 <= i < j < out.len() implies out[i].0 != out[j].0 by {
                if j == fs.len() {
                    assert(out[i] == fs[i]);
                    assert(out[j].0 == k);
                }
            }
        },
        Some(i0) => {
            assert forall|i: int, j: int| 0 <= i < j < out.len() implies out[i].0 != out[j].0 by {
                assert(out[i0].0 == k);
                assert(fs[i0].0 == k);
                if i != i0 {
                    assert(out[i] == fs[i]);
                }
                if j != i0 {
                    assert(out[j] == fs[j]);
                }
            }
        },
    }
}

/// Duplicate keys collapse: however the items repeat a key, the JSON
/// body object holds one member per distinct key, at the position of its
/// first appearance, with the value written last.
pub proof fn lemma_json_fields_keys_unique(items: Seq<RequestItem>)
    ensures
        keys_unique(json_fields(items)),
    decreases items.len(),
{
    if items.len() > 0 {
        lemma_json_fields_keys_unique(items.drop_last());
        if is_body_item(items.last()) {
            lemma_upsert_keys_unique(
                json_fields(items.drop_last()),
                item_key(items.last()),
                member_text(items.last()),
            );
        }
    }
}

/// Last write wins: when `items[i]` is the last body item that uses its
/// key, the JSON body object holds exactly that item's member for it.
pub proof fn lemma_last_write_wins(items: Seq<RequestItem>, i: int)
    requires
        0 <= i < items.len(),
        is_body_item(items[i]),
        forall|j: int|
            i < j < items.len() && is_body_item(#[trigger] items[j]) ==> item_key(items[j])
                != item_key(items[i]),
    ensures
        exists|p: int|
            0 <= p < json_fields(items).len() && #[trigger] json_fields(items)[p] == (
                item_key(items[i]),
                member_text(items[i]),
            ),
    decreases items.len(),
{
    let k = item_key(items[i]);
    let v = member_text(items[i]);
    let pre = json_fields(items.drop_last());
    if i == items.len() - 1 {
        assert(items.last() == items[i]);
        assert(json_fields(items) == upsert(pre, k, v));
        lemma_find_key_first(pre, k);
        match find_key(pre, k) {
            None => {
                assert(json_fields(items)[pre.len() as int] == (k, v));
            },
            Some(p) => {
                assert(json_fields(items)[p] == (k, v));
            },
        }
    } else {
        assert(items.drop_last()[i] == items[i]);
        assert forall|j: int|
            i < j < items.drop_last().len() && is_body_item(
                #[trigger] items.drop_last()[j],
            ) implies item_key(items.drop_last()[j]) != k by {
            assert(items.drop_last()[j] == items[j]);
        }
        lemma_last_write_wins(items.drop_last(), i);
        assert(exists|p: int| 0 <= p < pre.len() && #[trigger] pre[p] == (k, v));
        let p = choose|p: int| 0 <= p < pre.len() && #[trigger] pre[p] == (k, v);
        let last = items.last();
        if is_body_item(last) {
            let lk = item_key(last);
            assert(lk != k);
            assert(json_fields(items) == upsert(pre, lk, member_text(last)));
            lemma_find_key_first(pre, lk);
            match find_key(pre, lk) {
                None => {
                    assert(json_fields(items)[p] == (k, v));
                },
                Some(q) => {
                    assert(pre[q].0 == lk);
                    assert(q != p);
                    assert(json_fields(items)[p] == (k, v));
                },
            }
        } else {
            assert(json_fields(items) == pre);
            assert(json_fields(items)[p] == (k, v));
        }
    }
}

fn upsert_exec(fields: &mut Vec<Field>, key: &String, text: String)
    ensures
        field_views(final(fields)@) == upsert(field_views(old(fields)@), key@, text@),
{
    let ghost fv = field_views(fields@);
    let mut j: usize = 0;
    while j < fields.len()
        invariant
            j <= fields@.len(),
            fields@ == old(fields)@,
            fv == field_views(fields@),
            forall|jj: int| 0 <= jj < j ==> fv[jj].0 != key@,
        decreases fields@.len() - j,
    {
        proof {
            assert(fv[j as int] == (fields@[j as int].key@, fields@[j as int].text@));
        }
        if str_eq(fields[j].key.as_str(), key.as_str()) {
            let replaced = Field { key: fields[j].key.clone(), text };
            fields[j] = replaced;
            proof {
                lemma_find_key_at(fv, key@, j as int);
                assert(field_views(fields@) =~= fv.update(j as int, (key@, text@)));
            }
            return ;
        }
        j += 1;
    }
    proof {
        lemma_find_key_none(fv, key@);
    }
    fields.push(Field { key: key.clone(), text });
    proof {
        assert(field_views(fields@) =~= fv.push((key@, text@)));
    }
}

fn build_json_body(items: &Vec<RequestItem>) -> (r: String)
    ensures
        r@ == json_body_text(items@),
{
    let mut fields: Vec<Field> = Vec::new();
    let mut i: usize = 0;
    proof {
        assert(field_views(fields@) =~= json_fields(items@.take(0)));
    }
    while i < items.len()
        invariant
            i <= items@.len(),
            field_views(fields@) == json_fields(items@.take(i as int)),
        decreases items@.len() - i,
    {
        proof {
            assert(items@.take(i + 1).drop_last() =~= items@.take(i as int));
            assert(items@.take(i + 1).last() == items@[i as int]);
        }
        match &items[i] {
            RequestItem::Data { key, value } => {
                let text = json_quote(value.as_str());
                upsert_exec(&mut fields, key, text);
            },
            RequestItem::JsonData { key, value } => {
                upsert_exec(&mut fields, key, value.clone());
            },
            _ => {},
        }
        i += 1;
    }
    proof {
        assert(items@.take(items@.len() as int) =~= items@);
    }
    if fields.len() == 0 {
        return String::new();
    }
    let mut out = String::new();
    out.append("{");
    proof {
        reveal_strlit("{");
        reveal_strlit("}");
        reveal_strlit(",");
        reveal_strlit(":");
        assert(out@ =~= seq!['{']);
    }
    let ghost fv = field_views(fields@);
    let mut j: usize = 0;
    while j < fields.len()
        invariant
            j <= fields@.len(),
            fields@.len() > 0,
            fv == field_views(fields@),
            out@ == seq!['{'] + json_members_text(fv.take(j as int)),
        decreases fields@.len() - j,
    {
        if j > 0 {
            out.append(",");
        }
        let quoted = json_quote(fields[j].key.as_str());
        out.append(quoted.as_str());
        out.append(":");
        out.append(fields[j].text.as_str());
        proof {
            reveal_strlit(",");
            reveal_strlit(":");
            assert(fv[j as int] == (fields@[j as int].key@, fields@[j as int].text@));
            assert(fv.take(j + 1).drop_last() =~= fv.take(j as int));
            assert(fv.take(j + 1).last() == fv[j as int]);
            if j == 0 {
                assert(out@ =~= seq!['{'] + json_members_text(fv.take(1)));
            } else {
                assert(out@ =~= seq!['{'] + json_members_text(fv.take(j + 1)));
            }
        }
        j += 1;
    }
    out.append("}");
    proof {
        reveal_strlit("}");
        assert(fv.take(fields@.len() as int) =~= fv);
        assert(out@ =~= seq!['{'] + json_members_text(fv) + seq!['}']);
    }
    out
}

fn build_form_body(items: &Vec<RequestItem>) -> (r: String)
    ensures
        r@ == form_body_text(items@),
{
    let mut out = String::new();
    let mut i: usize = 0;
    while i < items.len()
        invariant
            i <= items@.len(),
            out@ == form_body_text(items@.take(i as int)),
        decreases items@.len() - i,
    {
        proof {
            assert(items@.take(i + 1).drop_last() =~= items@.take(i as int));
            assert(items@.take(i + 1).last() == items@[i as int]);
        }
        match &items[i] {
            RequestItem::Data { key, value } => {
                if !out.as_str().is_empty() {
                    out.append("&");
                }
                append_form_pair(&mut out, key, value);
                proof {
                    reveal_strlit("&");
                    assert(out@ =~= form_body_text(items@.take(i + 1)));
                }
            },
            RequestItem::JsonData { key, value } => {
                if !out.as_str().is_empty() {
                    out.append("&");
                }
                append_form_pair(&mut out, key, value);
                proof {
                    reveal_strlit("&");
                    assert(out@ =~= form_body_text(items@.take(i + 1)));
                }
            },
            _ => {},
        }
        i += 1;
    }
    proof {
        assert(items@.take(items@.len() as int) =~= items@);
    }
    out
}

fn append_form_pair(out: &mut String, key: &String, value: &String)
    ensures
        final(out)@ == old(out)@ + url_enc(encode_utf8(key@)) + seq!['='] + url_enc(
            encode_utf8(value@),
        ),
{
    let ek = url_encode(key.as_str());
    out.append(ek.as_str());
    out.append("=");
    let ev = url_encode(value.as_str());
    out.append(ev.as_str());
    proof {
        reveal_strlit("=");
        assert(out@ =~= old(out)@ + url_enc(encode_utf8(key@)) + seq!['='] + url_enc(
            encode_utf8(value@),
        ));
    }
}

/// The serialized body for the given mode and items.
pub fn build_body(mode: Mode, items: &Vec<RequestItem>) -> (r: String)
    ensures
        r@ == body_text(mode, items@),
{
    match mode {
        Mode::Json => build_json_body(items),
        Mode::Form => build_form_body(items),
    }
}

/// Whether an explicit header item carries exactly this name.
fn items_have_header(items: &Vec<RequestItem>, name: &str) -> (r: bool)
    ensures
        r == items_name_header(items@, name@),
{
    let mut i: usize = 0;
    while i < items.len()
        invariant
            i <= items@.len(),
            forall|j: int|
                0 <= j < i ==> !((#[trigger] items@[j]) matches RequestItem::Header {
                    key,
                    value: _,
                } && key@ == name@),
        decreases items@.len() - i,
    {
        match &items[i] {
            RequestItem::Header { key, value: _ } => {
                if str_eq(key.as_str(), name) {
                    proof {
                        assert((items@[i as int]) matches RequestItem::Header {
                            key: k,
                            value: _,
                        } && k@ == name@);
                    }
                    return true;
                }
            },
            _ => {},
        }
        i += 1;
    }
    false
}

/// Folds method, URI, mode and the ordered items into a request: the URI
/// defaults applied, the headers in application order, and the body built
/// under the mode with its content headers. An `accept` or `user-agent`
/// header item replaces the corresponding default.
pub fn assemble(method: String, uri: UriParts, mode: Mode, items: &Vec<RequestItem>) -> (r:
    AssembledRequest)
    ensures
        r@.method == method@,
        (r@.scheme, r@.authority, r@.path_and_query) == normalized_uri(uri@),
        r@.headers == assembled_headers(mode, items@),
        r@.body == body_text(mode, items@),
        r@.mode == mode,
{
    let uri = uri.normalize();
    let body = build_body(mode, items);
    let mut headers: Vec<HeaderField> = Vec::new();
    if !items_have_header(items, "accept") {
        headers.push(HeaderField { name: "accept".to_owned(), value: "*/*".to_owned() });
    }
    if !items_have_header(items, "user-agent") {
        headers.push(
            HeaderField { name: "user-agent".to_owned(), value: "reqcraft/0.1.0".to_owned() },
        );
    }
    proof {
        assert(header_views(headers@) =~= default_headers(items@));
        assert(item_headers(items@.take(0)) =~= Seq::<(Seq<char>, Seq<char>)>::empty());
    }
    let ghost base = default_headers(items@);
    let mut i: usize = 0;
    while i < items.len()
        invariant
            i <= items@.len(),
            header_views(headers@) == base + item_headers(items@.take(i as int)),
        decreases items@.len() - i,
    {
        proof {
            assert(items@.take(i + 1).drop_last() =~= items@.take(i as int));
            assert(items@.take(i + 1).last() == items@[i as int]);
        }
        let ghost pre = header_views(headers@);
        match &items[i] {
            RequestItem::Header { key, value } => {
                headers.push(HeaderField { name: key.clone(), value: value.clone() });
                proof {
                    assert(header_views(headers@) =~= pre.push((key@, value@)));
                    assert(header_views(headers@) =~= base + item_headers(items@.take(i + 1)));
                }
            },
            _ => {},
        }
        i += 1;
    }
    proof {
        assert(items@.take(items@.len() as int) =~= items@);
    }
    if !body.as_str().is_empty() {
        let ghost pre = header_views(headers@);
        let ct = match mode {
            Mode::Json => "application/json",
            Mode::Form => "application/x-www-form-urlencoded",
        };
        proof {
            assert(ct@ == content_type_text(mode));
        }
        headers.push(HeaderField { name: "content-type".to_owned(), value: ct.to_owned() });
        let len_text = u64_to_dec(body.as_str().len() as u64);
        headers.push(HeaderField { name: "content-length".to_owned(), value: len_text });
        proof {
            assert(header_views(headers@) =~= pre + seq![
                ("content-type"@, content_type_text(mode)),
                ("content-length"@, dec_of(byte_len(body@))),
            ]);
        }
    }
    let r = AssembledRequest { method, uri, headers, body, mode };
    proof {
        assert(r@.headers =~= assembled_headers(mode, items@));
    }
    r
}

} // verus!
