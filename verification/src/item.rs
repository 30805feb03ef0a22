//! The request-item mini-language: one `key<operator>value` token becomes
//! one typed request item.

use vstd::prelude::*;
use vstd::string::*;
use vstd::utf8::encode_utf8;
use crate::collab::{
    json_canon, json_canonicalize, lower_header_name, parse_header_name, header_value_ok,
    valid_header_name, valid_header_value,
};
use crate::strutil::str_eq;

verus! {

/// The body-encoding strategy: url-encoded form fields or a structured
/// JSON object.
#[derive(Clone, Copy, Debug, PartialEq, Eq, Structural)]
pub enum Mode {
    Form,
    Json,
}

impl Default for Mode {
    /// The mode used when no explicit flag was given.
    fn default() -> (r: Self)
        ensures
            r == Mode::Json,
    {
        Mode::Json
    }
}

/// A failure to pick the body-encoding mode.
#[derive(Clone, Copy, Debug, PartialEq, Eq, Structural)]
pub enum ModeError {
    /// A mode name that is neither `form` nor `json`.
    MissingMode,
    /// Both the form flag and the json flag were given.
    ModeConflict,
}

impl Mode {
    /// Parses an explicit mode name.
    pub fn from_str(s: &str) -> (r: Result<Mode, ModeError>)
        ensures
            s@ == "form"@ ==> r == Ok::<Mode, ModeError>(Mode::Form),
            s@ == "json"@ ==> r == Ok::<Mode, ModeError>(Mode::Json),
            s@ != "form"@ && s@ != "json"@ ==> r == Err::<Mode, ModeError>(
                ModeError::MissingMode,
            ),
    {
        proof {
            reveal_strlit("form");
            reveal_strlit("json");
        }
        if str_eq(s, "form") {
            proof {
                assert("form"@[0] != "json"@[0]);
            }
            Ok(Mode::Form)
        } else if str_eq(s, "json") {
            Ok(Mode::Json)
        } else {
            Err(ModeError::MissingMode)
        }
    }
}

/// Picks the body-encoding mode from the two mutually exclusive flags,
/// before any request item is parsed.
pub fn resolve_mode(form: bool, json: bool) -> (r: Result<Mode, ModeError>)
    ensures
        form && json ==> r == Err::<Mode, ModeError>(ModeError::ModeConflict),
        form && !json ==> r == Ok::<Mode, ModeError>(Mode::Form),
        !form ==> r == Ok::<Mode, ModeError>(Mode::Json),
{
    if form && json {
        Err(ModeError::ModeConflict)
    } else if form {
        Ok(Mode::Form)
    } else {
        Ok(Mode::Json)
    }
}

/// One parsed `key<operator>value` token.
///
/// `JsonData` carries the compact serialization of the parsed JSON
/// literal; `FormFile` carries the file path as text.
#[derive(Clone, Debug, PartialEq, Eq)]
pub enum RequestItem {
    Data { key: String, value: String },
    FormFile { key: String, value: String },
    Header { key: String, value: String },
    JsonData { key: String, value: String },
    SearchParam { key: String, value: String },
}

/// A failure to parse one token, carrying the offending fragment.
#[derive(Clone, Debug, PartialEq, Eq)]
pub enum RequestItemError {
    /// No operator was found, or a value failed its transform.
    ParseError(String),
    /// An operator text that is not one of the known variants; kept as a
    /// distinct reported kind although the grammar is exhaustive.
    VariantParseError(String),
    /// File indirection with an empty path.
    MissingFileInputError(String),
    /// The named file could not be opened, read, or decoded.
    IOError(String),
}

/// Which transform applies to file contents brought in by indirection.
#[derive(Clone, Copy, Debug, PartialEq, Eq, Structural)]
pub enum FileOp {
    /// `=@`: the text becomes a plain data value.
    Plain,
    /// `:=@`: the text is parsed as a JSON literal.
    Json,
}

/// What one token parses to: a finished item, or a request to read a
/// file whose contents still have to pass the value transform.
#[derive(Clone, Debug, PartialEq, Eq)]
pub enum ParsedToken {
    Ready(RequestItem),
    NeedsFile { key: String, op: FileOp, path: String },
}

/// The operators of the mini-language, in the order the grammar tries
/// them at each position.
#[derive(Clone, Copy, Debug, PartialEq, Eq, Structural)]
pub enum Op {
    /// `==`
    SearchEq,
    /// `:=` (or `:=@` with indirection)
    JsonColonEq,
    /// `:`
    HeaderColon,
    /// `=` (or `=@` with indirection)
    DataEq,
    /// `@`
    FileAt,
}

/// The operator recognized at position `i`, with its length and whether
/// it asks for file indirection. At one position the alternatives are
/// tried in the fixed order `==`, `:=@`, `:=`, `=@`, `=`, `:`, `@`.
pub open spec fn sep_at(s: Seq<char>, i: int) -> Option<(Op, int, bool)>
    recommends
        0 <= i < s.len(),
{
    if s[i] == '=' {
        if i + 1 < s.len() && s[i + 1] == '=' {
            Some((Op::SearchEq, 2int, false))
        } else if i + 1 < s.len() && s[i + 1] == '@' {
            Some((Op::DataEq, 2int, true))
        } else {
            Some((Op::DataEq, 1int, false))
        }
    } else if s[i] == ':' {
        if i + 1 < s.len() && s[i + 1] == '=' {
            if i + 2 < s.len() && s[i + 2] == '@' {
                Some((Op::JsonColonEq, 3int, true))
            } else {
                Some((Op::JsonColonEq, 2int, false))
            }
        } else {
            Some((Op::HeaderColon, 1int, false))
        }
    } else if s[i] == '@' {
        Some((Op::FileAt, 1int, false))
    } else {
        None
    }
}

/// The first position at or after `i` holding an operator that is not
/// escaped by a backslash just before it.
pub open spec fn scan_from(s: Seq<char>, i: int) -> Option<int>
    recommends
        1 <= i,
    decreases s.len() - i,
{
    if i < 1 || i >= s.len() {
        None
    } else if sep_at(s, i) is Some && s[i - 1] != '\\' {
        Some(i)
    } else {
        scan_from(s, i + 1)
    }
}

/// Where a token splits into key and value: the first unescaped operator
/// after a non-empty key, if any.
pub open spec fn split_point(s: Seq<char>) -> Option<int> {
    scan_from(s, 1)
}

/// The characters an escaping backslash may protect.
pub open spec fn op_char(c: char) -> bool {
    c == '=' || c == ':' || c == '@'
}

/// The key text with each backslash that escapes an operator character
/// removed.
pub open spec fn unescape_key(k: Seq<char>) -> Seq<char>
    decreases k.len(),
{
    if k.len() == 0 {
        Seq::empty()
    } else if k.len() >= 2 && k[0] == '\\' && op_char(k[1]) {
        seq![k[1]] + unescape_key(k.subrange(2, k.len() as int))
    } else {
        seq![k[0]] + unescape_key(k.drop_first())
    }
}

/// What parsing one token must produce, before the per-operator value
/// transforms that depend on the collaborating crates.
pub ghost enum TokenOutcome {
    /// No unescaped operator: a parse error.
    NoOp,
    /// File indirection with an empty path.
    EmptyFilePath,
    /// File indirection: the file at `path` must be read first.
    File { key: Seq<char>, op: FileOp, path: Seq<char> },
    Search { key: Seq<char>, value: Seq<char> },
    PlainData { key: Seq<char>, value: Seq<char> },
    FileRef { key: Seq<char>, value: Seq<char> },
    Json { key: Seq<char>, raw: Seq<char> },
    Header { key: Seq<char>, value: Seq<char> },
}

/// The outcome of the token grammar on `s`.
pub open spec fn token_outcome(s: Seq<char>) -> TokenOutcome {
    match split_point(s) {
        None => TokenOutcome::NoOp,
        Some(i) => match sep_at(s, i) {
            None => TokenOutcome::NoOp,
            Some((op, l, file)) => {
                let k = unescape_key(s.subrange(0, i));
                let v = s.subrange(i + l, s.len() as int);
                if file {
                    if v.len() == 0 {
                        TokenOutcome::EmptyFilePath
                    } else {
                        TokenOutcome::File {
                            key: k,
                            op: if op is JsonColonEq {
                                FileOp::Json
                            } else {
                                FileOp::Plain
                            },
                            path: v,
                        }
                    }
                } else {
                    match op {
                        Op::SearchEq => TokenOutcome::Search { key: k, value: v },
                        Op::DataEq => TokenOutcome::PlainData { key: k, value: v },
                        Op::FileAt => TokenOutcome::FileRef { key: k, value: v },
                        Op::JsonColonEq => TokenOutcome::Json { key: k, raw: v },
                        Op::HeaderColon => TokenOutcome::Header { key: k, value: v },
                    }
                }
            },
        },
    }
}

proof fn lemma_unescape_nonempty(k: Seq<char>)
    requires
        k.len() > 0,
    ensures
        unescape_key(k).len() > 0,
    decreases k.len(),
{
}

proof fn lemma_scan_bounds(s: Seq<char>, i: int)
    ensures
        scan_from(s, i) matches Some(j) ==> i <= j < s.len() && 1 <= j,
    decreases s.len() - i,
{
    if !(i < 1 || i >= s.len()) {
        lemma_scan_bounds(s, i + 1);
    }
}

/// The grammar never yields an empty key: the operator search starts
/// only after the first character, and unescaping keeps at least one
/// character of the key.
pub proof fn lemma_key_nonempty(s: Seq<char>)
    ensures
        token_outcome(s) matches TokenOutcome::File { key, .. } ==> key.len() > 0,
        token_outcome(s) matches TokenOutcome::Search { key, .. } ==> key.len() > 0,
        token_outcome(s) matches TokenOutcome::PlainData { key, .. } ==> key.len() > 0,
        token_outcome(s) matches TokenOutcome::FileRef { key, .. } ==> key.len() > 0,
        token_outcome(s) matches TokenOutcome::Json { key, .. } ==> key.len() > 0,
        token_outcome(s) matches TokenOutcome::Header { key, .. } ==> key.len() > 0,
{
    lemma_scan_bounds(s, 1);
    match split_point(s) {
        Some(i) => {
            assert(s.subrange(0, i).len() == i >= 1);
            lemma_unescape_nonempty(s.subrange(0, i));
        },
        None => {},
    }
}

pub open spec fn is_parse_error(r: Result<ParsedToken, RequestItemError>, frag: Seq<char>) -> bool {
    r matches Err(RequestItemError::ParseError(t)) && t@ == frag
}

pub open spec fn is_missing_file_error(r: Result<ParsedToken, RequestItemError>) -> bool {
    r matches Err(RequestItemError::MissingFileInputError(t)) && t@.len() == 0
}

fn sep_at_exec(s: &str, i: usize) -> (r: Option<(Op, usize, bool)>)
    requires
        i < s@.len(),
    ensures
        r matches Some(t) ==> sep_at(s@, i as int) == Some((t.0, t.1 as int, t.2)) && i + t.1
            <= s@.len(),
        r is None ==> sep_at(s@, i as int) is None,
{
    let n = s.unicode_len();
    let c = s.get_char(i);
    if c == '=' {
        if i + 1 < n && s.get_char(i + 1) == '=' {
            Some((Op::SearchEq, 2, false))
        } else if i + 1 < n && s.get_char(i + 1) == '@' {
            Some((Op::DataEq, 2, true))
        } else {
            Some((Op::DataEq, 1, false))
        }
    } else if c == ':' {
        if i + 1 < n && s.get_char(i + 1) == '=' {
            if i + 2 < n && s.get_char(i + 2) == '@' {
                Some((Op::JsonColonEq, 3, true))
            } else {
                Some((Op::JsonColonEq, 2, false))
            }
        } else {
            Some((Op::HeaderColon, 1, false))
        }
    } else if c == '@' {
        Some((Op::FileAt, 1, false))
    } else {
        None
    }
}

fn find_split(s: &str) -> (r: Option<(usize, Op, usize, bool)>)
    ensures
        r matches Some(t) ==> {
            &&& split_point(s@) == Some(t.0 as int)
            &&& sep_at(s@, t.0 as int) == Some((t.1, t.2 as int, t.3))
            &&& 1 <= t.0 < s@.len()
            &&& t.0 + t.2 <= s@.len()
        },
        r is None ==> split_point(s@) is None,
{
    let n = s.unicode_len();
    let mut i: usize = 1;
    loop
        invariant
            1 <= i,
            n == s@.len(),
            scan_from(s@, 1) == scan_from(s@, i as int),
        decreases n - i,
    {
        if i >= n {
            return None;
        }
        let prev = s.get_char(i - 1);
        if let Some((op, l, file)) = sep_at_exec(s, i) {
            if prev != '\\' {
                return Some((i, op, l, file));
            }
        }
        i += 1;
    }
}

fn unescape_key_exec(k: &str) -> (r: String)
    ensures
        r@ == unescape_key(k@),
{
    let n = k.unicode_len();
    let mut out = String::new();
    let mut i: usize = 0;
    proof {
        assert(k@.skip(0) =~= k@);
    }
    while i < n
        invariant
            i <= n,
            n == k@.len(),
            out@ + unescape_key(k@.skip(i as int)) == unescape_key(k@),
        decreases n - i,
    {
        let ghost pre = out@;
        let c = k.get_char(i);
        let mut took_two = false;
        if c == '\\' && i + 1 < n {
            let c2 = k.get_char(i + 1);
            if c2 == '=' || c2 == ':' || c2 == '@' {
                let piece = k.substring_char(i + 1, i + 2);
                out.append(piece);
                took_two = true;
                proof {
                    let ki = k@.skip(i as int);
                    assert(ki.len() >= 2);
                    assert(ki[0] == k@[i as int]);
                    assert(ki[1] == k@[i as int + 1]);
                    assert(ki.subrange(2, ki.len() as int) =~= k@.skip(i as int + 2));
                    assert(unescape_key(ki) == seq![ki[1]] + unescape_key(k@.skip(i as int + 2)));
                    assert(piece@ =~= seq![k@[i as int + 1]]);
                    assert(out@ + unescape_key(k@.skip(i as int + 2)) =~= pre + unescape_key(ki));
                }
            }
        }
        if took_two {
            i += 2;
        } else {
            let piece = k.substring_char(i, i + 1);
            out.append(piece);
            proof {
                let ki = k@.skip(i as int);
                assert(ki[0] == k@[i as int]);
                assert(ki.drop_first() =~= k@.skip(i as int + 1));
                if ki.len() >= 2 && ki[0] == '\\' && op_char(ki[1]) {
                    assert(false);
                }
                assert(unescape_key(ki) == seq![ki[0]] + unescape_key(k@.skip(i as int + 1)));
                assert(piece@ =~= seq![k@[i as int]]);
                assert(out@ + unescape_key(k@.skip(i as int + 1)) =~= pre + unescape_key(ki));
            }
            i += 1;
        }
    }
    proof {
        assert(unescape_key(k@.skip(n as int)) =~= Seq::empty());
        assert(out@ =~= unescape_key(k@));
    }
    out
}

impl RequestItem {
    /// Parses one raw token. A finished item comes back as
    /// `ParsedToken::Ready`; a token that asks for file indirection comes
    /// back as `ParsedToken::NeedsFile`, checked for a non-empty path but
    /// with the file not yet read.
    pub fn from_token(s: &str) -> (r: Result<ParsedToken, RequestItemError>)
        ensures
            token_outcome(s@) is NoOp ==> is_parse_error(r, s@),
            token_outcome(s@) is EmptyFilePath ==> is_missing_file_error(r),
            token_outcome(s@) matches TokenOutcome::File { key, op, path } ==> (r matches Ok(
                ParsedToken::NeedsFile { key: k, op: o, path: p },
            ) && k@ == key && o == op && p@ == path),
            token_outcome(s@) matches TokenOutcome::Search { key, value } ==> (r matches Ok(
                ParsedToken::Ready(RequestItem::SearchParam { key: k, value: v }),
            ) && k@ == key && v@ == value),
            token_outcome(s@) matches TokenOutcome::PlainData { key, value } ==> (r matches Ok(
                ParsedToken::Ready(RequestItem::Data { key: k, value: v }),
            ) && k@ == key && v@ == value),
            token_outcome(s@) matches TokenOutcome::FileRef { key, value } ==> (r matches Ok(
                ParsedToken::Ready(RequestItem::FormFile { key: k, value: v }),
            ) && k@ == key && v@ == value),
            token_outcome(s@) matches TokenOutcome::Json { key, raw } ==> (match json_canon(raw) {
                Some(c) => r matches Ok(
                    ParsedToken::Ready(RequestItem::JsonData { key: k, value: v }),
                ) && k@ == key && v@ == c,
                None => is_parse_error(r, s@),
            }),
            token_outcome(s@) matches TokenOutcome::Header { key, value } ==> (if valid_header_name(
                key,
            ) && valid_header_value(encode_utf8(value)) {
                r matches Ok(ParsedToken::Ready(RequestItem::Header { key: k, value: v })) && k@
                    == lower_header_name(key) && v@ == value
            } else {
                is_parse_error(r, s@)
            }),
    {
        let n = s.unicode_len();
        match find_split(s) {
            None => Err(RequestItemError::ParseError(s.to_owned())),
            Some((i, op, l, file)) => {
                let raw_key = s.substring_char(0, i);
                let key = unescape_key_exec(raw_key);
                let value = s.substring_char(i + l, n).to_owned();
                if file {
                    if value.as_str().unicode_len() == 0 {
                        Err(RequestItemError::MissingFileInputError(value))
                    } else {
                        let fop = match op {
                            Op::JsonColonEq => FileOp::Json,
                            _ => FileOp::Plain,
                        };
                        Ok(ParsedToken::NeedsFile { key, op: fop, path: value })
                    }
                } else {
                    match op {
                        Op::SearchEq => Ok(
                            ParsedToken::Ready(RequestItem::SearchParam { key, value }),
                        ),
                        Op::DataEq => Ok(ParsedToken::Ready(RequestItem::Data { key, value })),
                        Op::FileAt => Ok(ParsedToken::Ready(RequestItem::FormFile { key, value })),
                        Op::JsonColonEq => match json_canonicalize(value.as_str()) {
                            Some(c) => Ok(
                                ParsedToken::Ready(RequestItem::JsonData { key, value: c }),
                            ),
                            None => Err(RequestItemError::ParseError(s.to_owned())),
                        },
                        Op::HeaderColon => match parse_header_name(key.as_str()) {
                            Some(lk) => {
                                if header_value_ok(value.as_str()) {
                                    Ok(
                                        ParsedToken::Ready(
                                            RequestItem::Header { key: lk, value },
                                        ),
                                    )
                                } else {
                                    Err(RequestItemError::ParseError(s.to_owned()))
                                }
                            },
                            None => Err(RequestItemError::ParseError(s.to_owned())),
                        },
                    }
                }
            },
        }
    }

    /// Finishes a file-indirected token once the file's text is in hand:
    /// `=@` makes the text a plain data value, `:=@` parses it as JSON.
    /// `token` is the original token, reported on a parse failure.
    pub fn from_file_text(key: String, op: FileOp, contents: String, token: &str) -> (r: Result<
        RequestItem,
        RequestItemError,
    >)
        ensures
            op == FileOp::Plain ==> (r matches Ok(RequestItem::Data { key: k, value: v }) && k@
                == key@ && v@ == contents@),
            op == FileOp::Json && json_canon(contents@) is Some ==> (r matches Ok(
                RequestItem::JsonData { key: k, value: v },
            ) && k@ == key@ && Some(v@) == json_canon(contents@)),
            op == FileOp::Json && json_canon(contents@) is None ==> (r matches Err(
                RequestItemError::ParseError(t),
            ) && t@ == token@),
    {
        match op {
            FileOp::Plain => Ok(RequestItem::Data { key, value: contents }),
            FileOp::Json => match json_canonicalize(contents.as_str()) {
                Some(c) => Ok(RequestItem::JsonData { key, value: c }),
                None => Err(RequestItemError::ParseError(token.to_owned())),
            },
        }
    }
}

} // verus!
