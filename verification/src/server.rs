use vstd::prelude::*;
use vstd::string::*;

use crate::decode::{json_of, parse_json};
use crate::json::{key_lookup, str_field, uint_field, json_get, json_get_str, json_get_uint, JsonValue};

verus! {

/// Errors reported by the checker client and the response normalizer.
#[derive(Debug, Clone, Copy, PartialEq, Eq, Structural)]
pub enum CheckError {
    /// The transport failed before any response arrived.
    Network,
    /// The service answered with a non-success status code.
    Unavailable { status: u16 },
    /// The response body could not be parsed as any known schema.
    MalformedResponse,
}

pub open spec fn status_is_success(status: u16) -> bool {
    200 <= status < 300
}

/// Decides whether an HTTP status code counts as a successful answer
/// from the checking service.
pub fn is_success_status(status: u16) -> (r: bool)
    ensures
        r == status_is_success(status),
{
    200 <= status && status < 300
}

/// One normalized finding, in character coordinates of the checked text.
#[derive(Debug, PartialEq, Eq)]
pub struct Match {
    pub message: String,
    pub word: String,
    pub offset: usize,
    pub length: usize,
    pub replacements: Vec<String>,
}

/// The mathematical shape of a `Match`.
#[verifier::ext_equal]
pub struct DiagView {
    pub message: Seq<char>,
    pub word: Seq<char>,
    pub offset: int,
    pub length: int,
    pub replacements: Seq<Seq<char>>,
}

impl View for Match {
    type V = DiagView;

    open spec fn view(&self) -> DiagView {
        DiagView {
            message: self.message@,
            word: self.word@,
            offset: self.offset as int,
            length: self.length as int,
            replacements: self.replacements.deep_view(),
        }
    }
}

impl DeepView for Match {
    type V = DiagView;

    open spec fn deep_view(&self) -> DiagView {
        self.view()
    }
}

/// The context triple some response schemas carry: a snippet of the checked
/// text and a span inside it, both measured in characters.
#[derive(Debug, PartialEq, Eq)]
pub struct LanguageToolContext {
    pub text: String,
    pub offset: u64,
    pub length: u64,
}

/// The mathematical shape of a `LanguageToolContext`.
#[verifier::ext_equal]
pub struct CtxView {
    pub text: Seq<char>,
    pub offset: int,
    pub length: int,
}

impl View for LanguageToolContext {
    type V = CtxView;

    open spec fn view(&self) -> CtxView {
        CtxView { text: self.text@, offset: self.offset as int, length: self.length as int }
    }
}

impl DeepView for LanguageToolContext {
    type V = CtxView;

    open spec fn deep_view(&self) -> CtxView {
        self.view()
    }
}

/// One match as the wire schema carries it, before its span is checked
/// against the text that was sent.
#[derive(Debug, PartialEq, Eq)]
pub struct LanguageToolMatch {
    pub message: String,
    pub context: Option<LanguageToolContext>,
    pub offset: u64,
    pub length: u64,
    pub replacements: Vec<String>,
}

/// The mathematical shape of a `LanguageToolMatch`.
#[verifier::ext_equal]
pub struct LtmView {
    pub message: Seq<char>,
    pub context: Option<CtxView>,
    pub offset: int,
    pub length: int,
    pub replacements: Seq<Seq<char>>,
}

impl View for LanguageToolMatch {
    type V = LtmView;

    open spec fn view(&self) -> LtmView {
        LtmView {
            message: self.message@,
            context: match self.context {
                Some(c) => Some(c@),
                None => None,
            },
            offset: self.offset as int,
            length: self.length as int,
            replacements: self.replacements.deep_view(),
        }
    }
}

impl DeepView for LanguageToolMatch {
    type V = LtmView;

    open spec fn deep_view(&self) -> LtmView {
        self.view()
    }
}

/// A whole check response after the structural parse: the matches that were
/// structurally well formed, in report order.
#[derive(Debug, PartialEq, Eq)]
pub struct LanguageToolResp {
    pub matches: Vec<LanguageToolMatch>,
}

impl View for LanguageToolResp {
    type V = Seq<LtmView>;

    open spec fn view(&self) -> Seq<LtmView> {
        self.matches.deep_view()
    }
}

/// A language the service offers, in the library's shape.
#[derive(Debug, PartialEq, Eq)]
pub struct Lang {
    pub name: String,
    pub code: String,
}

/// The mathematical shape of a `Lang`.
#[verifier::ext_equal]
pub struct LangView {
    pub name: Seq<char>,
    pub code: Seq<char>,
}

impl View for Lang {
    type V = LangView;

    open spec fn view(&self) -> LangView {
        LangView { name: self.name@, code: self.code@ }
    }
}

impl DeepView for Lang {
    type V = LangView;

    open spec fn deep_view(&self) -> LangView {
        self.view()
    }
}

/// A language catalog entry as the wire schema carries it.
#[allow(non_snake_case)]
#[derive(Debug, PartialEq, Eq)]
pub struct LanguageToolLang {
    pub name: String,
    pub longCode: String,
}

impl View for LanguageToolLang {
    type V = (Seq<char>, Seq<char>);

    open spec fn view(&self) -> (Seq<char>, Seq<char>) {
        (self.name@, self.longCode@)
    }
}

// ---------------------------------------------------------------------------
// The response schemas, as functions from a JSON document to the model.
// ---------------------------------------------------------------------------

/// A context object: `{"text": ..., "offset": ..., "length": ...}`.
pub open spec fn context_of_json(v: JsonValue) -> Option<CtxView> {
    match v {
        JsonValue::Object(f) => match (
            str_field(f@, "text"@),
            uint_field(f@, "offset"@),
            uint_field(f@, "length"@),
        ) {
            (Some(t), Some(o), Some(l)) => Some(
                CtxView { text: t, offset: o as int, length: l as int },
            ),
            _ => None,
        },
        _ => None,
    }
}

/// One replacement entry: either a plain string or an object whose `value`
/// key holds the suggestion; an entry missing that key is malformed.
pub open spec fn replacement_of_json(v: JsonValue) -> Option<Seq<char>> {
    match v {
        JsonValue::Str(s) => Some(s@),
        JsonValue::Object(f) => str_field(f@, "value"@),
        _ => None,
    }
}

/// The whole replacements list; one malformed entry makes the record
/// malformed.
pub open spec fn replacements_of_json(rs: Seq<JsonValue>) -> Option<Seq<Seq<char>>>
    decreases rs.len(),
{
    if rs.len() == 0 {
        Some(Seq::empty())
    } else {
        match (replacements_of_json(rs.drop_last()), replacement_of_json(rs.last())) {
            (Some(init), Some(r)) => Some(init.push(r)),
            _ => None,
        }
    }
}

/// One match object, structurally: message, span, optional context,
/// replacements. `None` means the record is malformed and will be skipped.
pub open spec fn ltm_of_json(v: JsonValue) -> Option<LtmView> {
    match v {
        JsonValue::Object(f) => match (
            str_field(f@, "message"@),
            uint_field(f@, "offset"@),
            uint_field(f@, "length"@),
        ) {
            (Some(msg), Some(o), Some(l)) => {
                let ctx = match key_lookup(f@, "context"@) {
                    Some(c) => match context_of_json(c) {
                        Some(cv) => Some(Some(cv)),
                        None => None,
                    },
                    None => Some(None),
                };
                let reps = match key_lookup(f@, "replacements"@) {
                    Some(JsonValue::Array(rs)) => replacements_of_json(rs@),
                    _ => None,
                };
                match (ctx, reps) {
                    (Some(c), Some(r)) => Some(
                        LtmView {
                            message: msg,
                            context: c,
                            offset: o as int,
                            length: l as int,
                            replacements: r,
                        },
                    ),
                    _ => None,
                }
            },
            _ => None,
        },
        _ => None,
    }
}

/// The structurally well-formed matches of a list, in order; malformed
/// records are skipped.
pub open spec fn ltms_of_json(ms: Seq<JsonValue>) -> Seq<LtmView>
    decreases ms.len(),
{
    if ms.len() == 0 {
        Seq::empty()
    } else {
        let init = ltms_of_json(ms.drop_last());
        match ltm_of_json(ms.last()) {
            Some(l) => init.push(l),
            None => init,
        }
    }
}

/// The structural read of a whole response: either an object whose
/// `matches` key holds the list, or the list itself at top level. Any other
/// shape is a malformed response.
pub open spec fn response_views(v: JsonValue) -> Result<Seq<LtmView>, CheckError> {
    match v {
        JsonValue::Object(f) => match key_lookup(f@, "matches"@) {
            Some(JsonValue::Array(ms)) => Ok(ltms_of_json(ms@)),
            _ => Err(CheckError::MalformedResponse),
        },
        JsonValue::Array(ms) => Ok(ltms_of_json(ms@)),
        _ => Err(CheckError::MalformedResponse),
    }
}

/// Resolves one structural match against the checked text: its span must
/// lie inside the text, and the flagged word is recovered from the context
/// snippet where one is present, else from the text itself.
pub open spec fn diag_of_ltm(l: LtmView, text: Seq<char>) -> Option<DiagView> {
    if !(0 <= l.offset && 0 <= l.length && l.offset + l.length <= text.len()) {
        None
    } else {
        let word = match l.context {
            Some(c) => if 0 <= c.offset && 0 <= c.length && c.offset + c.length <= c.text.len() {
                Some(c.text.subrange(c.offset, c.offset + c.length))
            } else {
                None
            },
            None => Some(text.subrange(l.offset, l.offset + l.length)),
        };
        match word {
            Some(w) => Some(
                DiagView {
                    message: l.message,
                    word: w,
                    offset: l.offset,
                    length: l.length,
                    replacements: l.replacements,
                },
            ),
            None => None,
        }
    }
}

/// Resolves a list of structural matches, in order, skipping the records
/// whose span does not fit the checked text.
pub open spec fn diags_of_ltms(ls: Seq<LtmView>, text: Seq<char>) -> Seq<DiagView>
    decreases ls.len(),
{
    if ls.len() == 0 {
        Seq::empty()
    } else {
        let init = diags_of_ltms(ls.drop_last(), text);
        match diag_of_ltm(ls.last(), text) {
            Some(d) => init.push(d),
            None => init,
        }
    }
}

/// What normalization makes of one JSON document and the checked text.
pub open spec fn normalize_views(v: JsonValue, text: Seq<char>) -> Result<
    Seq<DiagView>,
    CheckError,
> {
    match response_views(v) {
        Ok(ls) => Ok(diags_of_ltms(ls, text)),
        Err(e) => Err(e),
    }
}

/// What a whole check call returns, given the status code and the parse of
/// the body: a non-success status is `Unavailable`, an unparseable body is
/// `MalformedResponse`, and otherwise the normalizer decides.
pub open spec fn check_outcome(status: u16, body: Option<JsonValue>, text: Seq<char>) -> Result<
    Seq<DiagView>,
    CheckError,
> {
    if !status_is_success(status) {
        Err(CheckError::Unavailable { status })
    } else {
        match body {
            Some(v) => normalize_views(v, text),
            None => Err(CheckError::MalformedResponse),
        }
    }
}

/// One language entry: `{"name": ..., "longCode": ...}`.
pub open spec fn lang_of_json(v: JsonValue) -> Option<LangView> {
    match v {
        JsonValue::Object(f) => match (str_field(f@, "name"@), str_field(f@, "longCode"@)) {
            (Some(n), Some(c)) => Some(LangView { name: n, code: c }),
            _ => None,
        },
        _ => None,
    }
}

/// The whole language catalog; one malformed entry makes the response
/// malformed.
pub open spec fn langs_of_json(ls: Seq<JsonValue>) -> Option<Seq<LangView>>
    decreases ls.len(),
{
    if ls.len() == 0 {
        Some(Seq::empty())
    } else {
        match (langs_of_json(ls.drop_last()), lang_of_json(ls.last())) {
            (Some(init), Some(l)) => Some(init.push(l)),
            _ => None,
        }
    }
}

/// What the language listing makes of one JSON document.
pub open spec fn languages_views(v: JsonValue) -> Result<Seq<LangView>, CheckError> {
    match v {
        JsonValue::Array(ls) => match langs_of_json(ls@) {
            Some(x) => Ok(x),
            None => Err(CheckError::MalformedResponse),
        },
        _ => Err(CheckError::MalformedResponse),
    }
}

/// What a whole language listing call returns, given the status code and
/// the parse of the body.
pub open spec fn languages_outcome(status: u16, body: Option<JsonValue>) -> Result<
    Seq<LangView>,
    CheckError,
> {
    if !status_is_success(status) {
        Err(CheckError::Unavailable { status })
    } else {
        match body {
            Some(v) => languages_views(v),
            None => Err(CheckError::MalformedResponse),
        }
    }
}

// ---------------------------------------------------------------------------
// The structural parse, verified against the schema functions above.
// ---------------------------------------------------------------------------

/// Reads a context object out of a JSON value.
pub fn parse_context(v: &JsonValue) -> (r: Option<LanguageToolContext>)
    ensures
        match r {
            Some(c) => context_of_json(*v) == Some(c@),
            None => context_of_json(*v) is None,
        },
{
    match v {
        JsonValue::Object(f) => {
            let t = json_get_str(f, &"text".to_owned());
            let o = json_get_uint(f, &"offset".to_owned());
            let l = json_get_uint(f, &"length".to_owned());
            match (t, o, l) {
                (Some(t), Some(o), Some(l)) => Some(
                    LanguageToolContext { text: t.clone(), offset: o, length: l },
                ),
                _ => None,
            }
        },
        _ => None,
    }
}

/// A list whose prefix already fails to parse as replacements fails whole.
proof fn lemma_replacements_prefix_none(s: Seq<JsonValue>, k: int)
    requires
        0 <= k <= s.len(),
        replacements_of_json(s.take(k)) is None,
    ensures
        replacements_of_json(s) is None,
    decreases s.len() - k,
{
    if k < s.len() {
        assert(s.take(k + 1).drop_last() =~= s.take(k));
        lemma_replacements_prefix_none(s, k + 1);
    } else {
        assert(s.take(k) =~= s);
    }
}

/// Reads a replacements list; `None` as soon as one entry is malformed.
pub fn parse_replacements(rs: &Vec<JsonValue>) -> (r: Option<Vec<String>>)
    ensures
        match r {
            Some(out) => replacements_of_json(rs@) == Some(out.deep_view()),
            None => replacements_of_json(rs@) is None,
        },
{
    let mut out: Vec<String> = Vec::new();
    let mut i: usize = 0;
    proof {
        assert(rs@.take(0) =~= Seq::<JsonValue>::empty());
    }
    while i < rs.len()
        invariant
            i <= rs@.len(),
            replacements_of_json(rs@.take(i as int)) == Some(out.deep_view()),
        decreases rs@.len() - i,
    {
        let entry: Option<String> = match &rs[i] {
            JsonValue::Str(s) => Some(s.clone()),
            JsonValue::Object(f) => match json_get_str(f, &"value".to_owned()) {
                Some(s) => Some(s.clone()),
                None => None,
            },
            _ => None,
        };
        proof {
            assert(rs@.take(i as int + 1).drop_last() =~= rs@.take(i as int));
            assert(rs@.take(i as int + 1).last() == rs@[i as int]);
        }
        match entry {
            Some(s) => {
                let ghost old_dv = out.deep_view();
                out.push(s);
                proof {
                    assert(out.deep_view() =~= old_dv.push(s@));
                }
            },
            None => {
                proof {
                    lemma_replacements_prefix_none(rs@, i as int + 1);
                }
                return None;
            },
        }
        i = i + 1;
    }
    proof {
        assert(rs@.take(rs@.len() as int) =~= rs@);
    }
    Some(out)
}

/// Reads one match object structurally; `None` flags the record as
/// malformed, and normalization of the remaining records goes on.
pub fn parse_match_fields(v: &JsonValue) -> (r: Option<LanguageToolMatch>)
    ensures
        match r {
            Some(m) => ltm_of_json(*v) == Some(m@),
            None => ltm_of_json(*v) is None,
        },
{
    match v {
        JsonValue::Object(f) => {
            let msg = json_get_str(f, &"message".to_owned());
            let o = json_get_uint(f, &"offset".to_owned());
            let l = json_get_uint(f, &"length".to_owned());
            match (msg, o, l) {
                (Some(msg), Some(o), Some(l)) => {
                    let context: Option<LanguageToolContext> = match json_get(
                        f,
                        &"context".to_owned(),
                    ) {
                        Some(c) => match parse_context(c) {
                            Some(cv) => Some(cv),
                            None => {
                                return None;
                            },
                        },
                        None => None,
                    };
                    let replacements: Vec<String> = match json_get(f, &"replacements".to_owned()) {
                        Some(JsonValue::Array(rs)) => match parse_replacements(rs) {
                            Some(x) => x,
                            None => {
                                return None;
                            },
                        },
                        _ => {
                            return None;
                        },
                    };
                    Some(
                        LanguageToolMatch {
                            message: msg.clone(),
                            context,
                            offset: o,
                            length: l,
                            replacements,
                        },
                    )
                },
                _ => None,
            }
        },
        _ => None,
    }
}

/// Reads every structurally well-formed match out of a list, in order.
fn collect_ltms(ms: &Vec<JsonValue>) -> (r: LanguageToolResp)
    ensures
        r@ == ltms_of_json(ms@),
{
    let mut matches: Vec<LanguageToolMatch> = Vec::new();
    let mut i: usize = 0;
    proof {
        assert(ms@.take(0) =~= Seq::<JsonValue>::empty());
    }
    while i < ms.len()
        invariant
            i <= ms@.len(),
            matches.deep_view() == ltms_of_json(ms@.take(i as int)),
        decreases ms@.len() - i,
    {
        proof {
            assert(ms@.take(i as int + 1).drop_last() =~= ms@.take(i as int));
            assert(ms@.take(i as int + 1).last() == ms@[i as int]);
        }
        match parse_match_fields(&ms[i]) {
            Some(m) => {
                let ghost old_dv = matches.deep_view();
                matches.push(m);
                proof {
                    assert(matches.deep_view() =~= old_dv.push(m@));
                }
            },
            None => {},
        }
        i = i + 1;
    }
    proof {
        assert(ms@.take(ms@.len() as int) =~= ms@);
    }
    LanguageToolResp { matches }
}

/// The structural read of a whole response body, already decoded as JSON:
/// accepts an object carrying a `matches` list or a bare list, and refuses
/// every other shape as a malformed response.
pub fn parse_response_value(v: &JsonValue) -> (r: Result<LanguageToolResp, CheckError>)
    ensures
        match r {
            Ok(resp) => response_views(*v) == Ok::<Seq<LtmView>, CheckError>(resp@),
            Err(e) => response_views(*v) == Err::<Seq<LtmView>, CheckError>(e),
        },
{
    match v {
        JsonValue::Object(f) => match json_get(f, &"matches".to_owned()) {
            Some(JsonValue::Array(ms)) => Ok(collect_ltms(ms)),
            _ => Err(CheckError::MalformedResponse),
        },
        JsonValue::Array(ms) => Ok(collect_ltms(ms)),
        _ => Err(CheckError::MalformedResponse),
    }
}

/// Resolves one structural match against the checked text. The span must
/// fit the text, in character units; the flagged word comes out of the
/// context snippet where one was sent, else out of the text itself.
pub fn normalize_match(ltm: LanguageToolMatch, text: &str) -> (r: Option<Match>)
    ensures
        match r {
            Some(m) => diag_of_ltm(ltm@, text@) == Some(m@),
            None => diag_of_ltm(ltm@, text@) is None,
        },
{
    let tl = text.unicode_len();
    if ltm.length > tl as u64 || ltm.offset > tl as u64 - ltm.length {
        return None;
    }
    let o = ltm.offset as usize;
    let l = ltm.length as usize;
    let word: String = match &ltm.context {
        Some(c) => {
            let ctl = c.text.as_str().unicode_len();
            if c.length > ctl as u64 || c.offset > ctl as u64 - c.length {
                return None;
            }
            let co = c.offset as usize;
            let cl = c.length as usize;
            c.text.as_str().substring_char(co, co + cl).to_owned()
        },
        None => text.substring_char(o, o + l).to_owned(),
    };
    Some(
        Match {
            message: ltm.message,
            word,
            offset: o,
            length: l,
            replacements: ltm.replacements,
        },
    )
}

/// Resolves a structurally parsed response against the checked text,
/// keeping the matches whose spans fit, in report order.
pub fn read_matches(resp: LanguageToolResp, text: &str) -> (r: Vec<Match>)
    ensures
        r.deep_view() == diags_of_ltms(resp@, text@),
{
    let LanguageToolResp { mut matches } = resp;
    let ghost all = resp@;
    let mut out: Vec<Match> = Vec::new();
    let ghost i: int = 0;
    proof {
        assert(all.take(0) =~= Seq::<LtmView>::empty());
        assert(matches.deep_view() =~= all.skip(0));
    }
    while matches.len() > 0
        invariant
            0 <= i <= all.len(),
            matches.deep_view() == all.skip(i),
            out.deep_view() == diags_of_ltms(all.take(i), text@),
        decreases matches@.len(),
    {
        proof {
            assert(matches.deep_view().len() == matches@.len());
            assert(i < all.len());
        }
        let ghost prev = matches;
        let m = matches.remove(0);
        proof {
            assert(prev.deep_view()[0] == all.skip(i)[0]);
            assert(all.skip(i)[0] == all[i]);
            assert(m@ == all[i]);
            assert forall|j: int| 0 <= j < matches@.len() implies matches.deep_view()[j] == all.skip(
                i + 1,
            )[j] by {
                assert(matches@[j] == prev@[j + 1]);
                assert(prev.deep_view()[j + 1] == all.skip(i)[j + 1]);
                assert(all.skip(i)[j + 1] == all[i + 1 + j]);
            }
            assert(matches.deep_view() =~= all.skip(i + 1));
            assert(all.take(i + 1).drop_last() =~= all.take(i));
            assert(all.take(i + 1).last() == all[i]);
        }
        match normalize_match(m, text) {
            Some(d) => {
                let ghost old_dv = out.deep_view();
                out.push(d);
                proof {
                    assert(out.deep_view() =~= old_dv.push(d@));
                }
            },
            None => {},
        }
        proof {
            i = i + 1;
        }
    }
    proof {
        assert(all.take(all.len() as int) =~= all);
    }
    out
}

/// A list whose prefix already fails to parse as a language catalog fails
/// whole.
proof fn lemma_langs_prefix_none(s: Seq<JsonValue>, k: int)
    requires
        0 <= k <= s.len(),
        langs_of_json(s.take(k)) is None,
    ensures
        langs_of_json(s) is None,
    decreases s.len() - k,
{
    if k < s.len() {
        assert(s.take(k + 1).drop_last() =~= s.take(k));
        lemma_langs_prefix_none(s, k + 1);
    } else {
        assert(s.take(k) =~= s);
    }
}

/// Reads the language catalog out of a decoded JSON document.
pub fn parse_languages_value(v: &JsonValue) -> (r: Result<Vec<Lang>, CheckError>)
    ensures
        match r {
            Ok(ls) => languages_views(*v) == Ok::<Seq<LangView>, CheckError>(ls.deep_view()),
            Err(e) => languages_views(*v) == Err::<Seq<LangView>, CheckError>(e),
        },
{
    let ls = match v {
        JsonValue::Array(ls) => ls,
        _ => {
            return Err(CheckError::MalformedResponse);
        },
    };
    proof {
        assert(*v == JsonValue::Array(*ls));
    }
    let mut out: Vec<Lang> = Vec::new();
    let mut i: usize = 0;
    proof {
        assert(ls@.take(0) =~= Seq::<JsonValue>::empty());
    }
    while i < ls.len()
        invariant
            i <= ls@.len(),
            *v == JsonValue::Array(*ls),
            langs_of_json(ls@.take(i as int)) == Some(out.deep_view()),
        decreases ls@.len() - i,
    {
        proof {
            assert(ls@.take(i as int + 1).drop_last() =~= ls@.take(i as int));
            assert(ls@.take(i as int + 1).last() == ls@[i as int]);
        }
        let entry: Option<LanguageToolLang> = match &ls[i] {
            JsonValue::Object(f) => {
                let n = json_get_str(f, &"name".to_owned());
                let c = json_get_str(f, &"longCode".to_owned());
                match (n, c) {
                    (Some(n), Some(c)) => Some(
                        LanguageToolLang { name: n.clone(), longCode: c.clone() },
                    ),
                    _ => None,
                }
            },
            _ => None,
        };
        match entry {
            Some(ll) => {
                let ghost old_dv = out.deep_view();
                let lang = Lang { name: ll.name, code: ll.longCode };
                out.push(lang);
                proof {
                    assert(out.deep_view() =~= old_dv.push(lang@));
                }
            },
            None => {
                proof {
                    assert(lang_of_json(ls@[i as int]) is None);
                    assert(langs_of_json(ls@.take(i as int + 1)) is None);
                    lemma_langs_prefix_none(ls@, i as int + 1);
                    assert(langs_of_json(ls@) is None);
                }
                return Err(CheckError::MalformedResponse);
            },
        }
        i = i + 1;
    }
    proof {
        assert(ls@.take(ls@.len() as int) =~= ls@);
    }
    Ok(out)
}

/// The checker client: knows where the service's two endpoints live.
#[derive(Debug)]
pub struct LanguagueToolServer {
    pub base_url: String,
    pub check_url: String,
    pub languages_url: String,
}

impl LanguagueToolServer {
    /// Builds a client for the service rooted at `base_url`.
    pub fn new(base_url: &str) -> (s: Self)
        ensures
            s.base_url@ == base_url@,
            s.check_url@ == base_url@ + "/v2/check"@,
            s.languages_url@ == base_url@ + "/v2/languages"@,
    {
        let base_url = base_url.to_owned();
        let mut check_url = base_url.clone();
        check_url.append("/v2/check");
        let mut languages_url = base_url.clone();
        languages_url.append("/v2/languages");
        LanguagueToolServer { base_url, check_url, languages_url }
    }

    /// The endpoint a check request is posted to.
    pub fn get_check_url(&self) -> (r: &str)
        ensures
            r@ == self.check_url@,
    {
        self.check_url.as_str()
    }

    /// The endpoint the language catalog is fetched from.
    pub fn get_languages_url(&self) -> (r: &str)
        ensures
            r@ == self.languages_url@,
    {
        self.languages_url.as_str()
    }

    /// Turns a check response — status code and body text — into the
    /// normalized findings for `text`, the plain text that was sent.
    pub fn parse_checked_text(&self, status: u16, body: &str, text: &str) -> (r: Result<
        Vec<Match>,
        CheckError,
    >)
        ensures
            match r {
                Ok(ms) => check_outcome(status, json_of(body@), text@) == Ok::<
                    Seq<DiagView>,
                    CheckError,
                >(ms.deep_view()),
                Err(e) => check_outcome(status, json_of(body@), text@) == Err::<
                    Seq<DiagView>,
                    CheckError,
                >(e),
            },
    {
        if !is_success_status(status) {
            return Err(CheckError::Unavailable { status });
        }
        match parse_json(body) {
            Some(v) => match parse_response_value(&v) {
                Ok(resp) => Ok(read_matches(resp, text)),
                Err(e) => Err(e),
            },
            None => Err(CheckError::MalformedResponse),
        }
    }

    /// Turns a language listing response — status code and body text —
    /// into the catalog.
    pub fn parse_languages(&self, status: u16, body: &str) -> (r: Result<Vec<Lang>, CheckError>)
        ensures
            match r {
                Ok(ls) => languages_outcome(status, json_of(body@)) == Ok::<
                    Seq<LangView>,
                    CheckError,
                >(ls.deep_view()),
                Err(e) => languages_outcome(status, json_of(body@)) == Err::<
                    Seq<LangView>,
                    CheckError,
                >(e),
            },
    {
        if !is_success_status(status) {
            return Err(CheckError::Unavailable { status });
        }
        match parse_json(body) {
            Some(v) => parse_languages_value(&v),
            None => Err(CheckError::MalformedResponse),
        }
    }
}

/// Every span a resolved match carries fits the checked text.
proof fn lemma_diags_bounded(ls: Seq<LtmView>, text: Seq<char>)
    ensures
        forall|i: int|
            0 <= i < diags_of_ltms(ls, text).len() ==> {
                let d = #[trigger] diags_of_ltms(ls, text)[i];
                0 <= d.offset && 0 <= d.length && d.offset + d.length <= text.len()
            },
    decreases ls.len(),
{
    if ls.len() > 0 {
        lemma_diags_bounded(ls.drop_last(), text);
        let init = diags_of_ltms(ls.drop_last(), text);
        match diag_of_ltm(ls.last(), text) {
            Some(d) => {
                assert(diags_of_ltms(ls, text) == init.push(d));
                assert(0 <= d.offset && 0 <= d.length && d.offset + d.length <= text.len());
                assert forall|i: int| 0 <= i < diags_of_ltms(ls, text).len() implies {
                    let e = #[trigger] diags_of_ltms(ls, text)[i];
                    0 <= e.offset && 0 <= e.length && e.offset + e.length <= text.len()
                } by {
                    if i < init.len() {
                        assert(init.push(d)[i] == init[i]);
                    } else {
                        assert(init.push(d)[i] == d);
                    }
                }
            },
            None => {
                assert(diags_of_ltms(ls, text) == init);
            },
        }
    }
}

/// However a well-formed response is shaped, the normalizer only produces
/// diagnostics whose character span lies inside the checked text:
/// `offset + length <= text.len()` holds of every one of them.
pub proof fn lemma_normalized_spans_bounded(v: JsonValue, text: Seq<char>)
    ensures
        match normalize_views(v, text) {
            Ok(ds) => forall|i: int|
                0 <= i < ds.len() ==> {
                    let d = #[trigger] ds[i];
                    0 <= d.offset && 0 <= d.length && d.offset + d.length <= text.len()
                },
            Err(_) => true,
        },
{
    match response_views(v) {
        Ok(ls) => lemma_diags_bounded(ls, text),
        Err(_) => {},
    }
}

} // verus!
