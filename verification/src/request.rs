//! Turning command-line input into the parts of an HTTP request: splitting
//! list and `key=value` arguments, resolving parameter values, and filling
//! the path template, the query and the headers of an operation.

use vstd::prelude::*;
use vstd::string::{StrSliceExecFns, StringSliceAdditionalSpecFns};
use vstd::utf8::encode_utf8;
use crate::command_tree::{Operation, OperationModel, ParamDef, ParamModel};
use crate::text::{
    chars_of, clone_text, first_index_of, joined, lemma_first_index_of, replace_all, replaced,
    same_text, string_of_range, strip_leading, strip_trailing, text_view, texts_view,
};

verus! {

/// The characters that `char::is_whitespace` accepts: those with the Unicode
/// property `White_Space`.
pub open spec fn is_space(c: char) -> bool {
    ||| ('\u{9}' <= c && c <= '\u{d}')
    ||| c == ' '
    ||| c == '\u{85}'
    ||| c == '\u{a0}'
    ||| c == '\u{1680}'
    ||| ('\u{2000}' <= c && c <= '\u{200a}')
    ||| c == '\u{2028}'
    ||| c == '\u{2029}'
    ||| c == '\u{202f}'
    ||| c == '\u{205f}'
    ||| c == '\u{3000}'
}

/// `s` without the white space at its start.
pub open spec fn strip_leading_space(s: Seq<char>) -> Seq<char>
    decreases s.len(),
{
    if s.len() > 0 && is_space(s[0]) {
        strip_leading_space(s.drop_first())
    } else {
        s
    }
}

/// `s` without the white space at its end.
pub open spec fn strip_trailing_space(s: Seq<char>) -> Seq<char>
    decreases s.len(),
{
    if s.len() > 0 && is_space(s.last()) {
        strip_trailing_space(s.drop_last())
    } else {
        s
    }
}

/// `s` without the white space at either end.
pub open spec fn trim_space(s: Seq<char>) -> Seq<char> {
    strip_trailing_space(strip_leading_space(s))
}

/// The pieces of `s` between commas, each without the white space around
/// it, empty pieces left out.
pub open spec fn list_pieces(s: Seq<char>) -> Seq<Seq<char>>
    decreases s.len(),
{
    let k = first_index_of(s, ',');
    let piece = trim_space(s.take(k));
    let first = if piece.len() > 0 {
        seq![piece]
    } else {
        Seq::empty()
    };
    if k < 0 || k >= s.len() {
        first
    } else {
        first + list_pieces(s.skip(k + 1))
    }
}

/// The values that one list argument stands for: its pieces where it holds
/// a comma, else the argument itself, untouched.
pub open spec fn list_items(s: Seq<char>) -> Seq<Seq<char>> {
    if s.contains(',') {
        list_pieces(s)
    } else {
        seq![s]
    }
}

/// `s` cut at its first `c`: what stands before it and what stands after.
pub open spec fn split_at_char(s: Seq<char>, c: char) -> Option<(Seq<char>, Seq<char>)> {
    let k = first_index_of(s, c);
    if k < s.len() {
        Some((s.take(k), s.skip(k + 1)))
    } else {
        None
    }
}

/// A `key=value` or `key:value` argument cut at its first `=`, or, where it
/// holds none, at its first `:`.
pub open spec fn key_value(s: Seq<char>) -> Option<(Seq<char>, Seq<char>)> {
    match split_at_char(s, '=') {
        Some(pair) => Some(pair),
        None => split_at_char(s, ':'),
    }
}

/// The pairs that a run of arguments gives, arguments without a separator left out.
pub open spec fn key_values(values: Seq<Seq<char>>) -> Seq<(Seq<char>, Seq<char>)>
    decreases values.len(),
{
    if values.len() == 0 {
        Seq::empty()
    } else {
        let head = key_values(values.drop_last());
        match key_value(values.last()) {
            Some(pair) => head.push(pair),
            None => head,
        }
    }
}

/// The texts of a run of string pairs.
pub open spec fn pairs_view(v: Seq<(String, String)>) -> Seq<(Seq<char>, Seq<char>)> {
    Seq::new(v.len(), |i: int| (v[i].0@, v[i].1@))
}

/// Whether `c` is white space.
pub fn is_whitespace(c: char) -> (r: bool)
    ensures
        r == is_space(c),
{
    ('\u{9}' <= c && c <= '\u{d}') || c == ' ' || c == '\u{85}' || c == '\u{a0}' || c
        == '\u{1680}' || ('\u{2000}' <= c && c <= '\u{200a}') || c == '\u{2028}' || c
        == '\u{2029}' || c == '\u{202f}' || c == '\u{205f}' || c == '\u{3000}'
}

/// The position of the first `c` in `chars[from..]`, counted from `from`.
fn position_from(chars: &Vec<char>, from: usize, c: char) -> (at: usize)
    requires
        from <= chars.len(),
    ensures
        from <= at <= chars.len(),
        at - from == first_index_of(chars@.skip(from as int), c),
{
    let mut at: usize = from;
    while at < chars.len() && chars[at] != c
        invariant
            from <= at <= chars.len(),
            first_index_of(chars@.skip(from as int), c) == at - from + first_index_of(
                chars@.skip(at as int),
                c,
            ),
        decreases chars.len() - at,
    {
        assert(chars@.skip(at as int).drop_first() =~= chars@.skip(at + 1));
        at += 1;
    }
    proof {
        if at < chars.len() {
            assert(chars@.skip(at as int)[0] == c);
        }
    }
    at
}

/// The bounds of `chars[from..to]` without the white space at either end.
fn trim_space_bounds(chars: &Vec<char>, from: usize, to: usize) -> (bounds: (usize, usize))
    requires
        from <= to <= chars.len(),
    ensures
        from <= bounds.0 <= bounds.1 <= to,
        chars@.subrange(bounds.0 as int, bounds.1 as int) == trim_space(
            chars@.subrange(from as int, to as int),
        ),
{
    let ghost whole = chars@.subrange(from as int, to as int);
    let mut start: usize = from;
    while start < to && is_whitespace(chars[start])
        invariant
            from <= start <= to <= chars.len(),
            strip_leading_space(chars@.subrange(start as int, to as int)) == strip_leading_space(
                whole,
            ),
        decreases to - start,
    {
        assert(chars@.subrange(start as int, to as int).drop_first() =~= chars@.subrange(
            start + 1,
            to as int,
        ));
        start += 1;
    }
    let ghost body = chars@.subrange(start as int, to as int);
    assert(strip_leading_space(whole) == body);
    let mut end: usize = to;
    while end > start && is_whitespace(chars[end - 1])
        invariant
            start <= end <= to <= chars.len(),
            strip_trailing_space(chars@.subrange(start as int, end as int))
                == strip_trailing_space(body),
        decreases end,
    {
        assert(chars@.subrange(start as int, end as int).drop_last() =~= chars@.subrange(
            start as int,
            end - 1,
        ));
        end -= 1;
    }
    (start, end)
}

/// Splits one list argument into its values. An argument with a comma gives
/// its comma-separated pieces, each trimmed of white space and empty pieces
/// dropped; an argument without one gives itself, untouched.
pub fn split_list(value: &str) -> (out: Vec<String>)
    ensures
        texts_view(out@) == list_items(value@),
{
    let chars = chars_of(value);
    let mut out: Vec<String> = Vec::new();
    assert(chars@.skip(0) =~= chars@);
    let comma = position_from(&chars, 0, ',');
    proof {
        lemma_first_index_of(chars@, ',');
    }
    if comma == chars.len() {
        out.push(value.to_owned());
        assert(texts_view(out@) =~= seq![value@]);
        return out;
    }
    let mut start: usize = 0;
    let mut done = false;
    assert(texts_view(out@) + list_pieces(chars@.skip(0)) =~= list_pieces(chars@));
    while !done
        invariant
            start <= chars.len(),
            chars@ == value@,
            !done ==> texts_view(out@) + list_pieces(chars@.skip(start as int)) == list_pieces(
                chars@,
            ),
            done ==> texts_view(out@) == list_pieces(chars@),
        decreases chars.len() - start + (if done { 0int } else { 1int }),
    {
        let ghost rest = chars@.skip(start as int);
        let ghost before = texts_view(out@);
        let end = position_from(&chars, start, ',');
        let (a, b) = trim_space_bounds(&chars, start, end);
        assert(chars@.subrange(start as int, end as int) =~= rest.take(end - start));
        if a < b {
            let piece = string_of_range(&chars, a, b);
            out.push(piece);
            assert(texts_view(out@) =~= before + seq![piece@]);
        }
        if end == chars.len() {
            done = true;
            assert(texts_view(out@) + Seq::<Seq<char>>::empty() =~= texts_view(out@));
        } else {
            assert(rest.skip(end - start + 1) =~= chars@.skip(end + 1));
            assert(before + (texts_view(out@).skip(before.len() as int) + list_pieces(
                chars@.skip(end + 1),
            )) =~= texts_view(out@) + list_pieces(chars@.skip(end + 1)));
            start = end + 1;
        }
    }
    out
}

/// Cuts a `key=value` or `key:value` argument at its first `=`, or, where
/// it holds none, at its first `:`. `None` where it holds neither.
pub fn split_key_value<'a>(value: &'a str) -> (out: Option<(&'a str, &'a str)>)
    ensures
        match out {
            Some((k, v)) => key_value(value@) == Some((k@, v@)),
            None => key_value(value@) is None,
        },
{
    let chars = chars_of(value);
    assert(chars@.skip(0) =~= chars@);
    let mut at = position_from(&chars, 0, '=');
    if at == chars.len() {
        at = position_from(&chars, 0, ':');
    }
    if at == chars.len() {
        return None;
    }
    let key = value.substring_char(0, at);
    let rest = value.substring_char(at + 1, chars.len());
    assert(value@.subrange(0, at as int) =~= value@.take(at as int));
    assert(value@.subrange(at + 1, chars.len() as int) =~= value@.skip(at + 1));
    Some((key, rest))
}

/// Reads `NAME:VALUE` header arguments; one without a separator is passed over.
pub fn parse_headers(values: &Vec<String>) -> (out: Vec<(String, String)>)
    ensures
        pairs_view(out@) == key_values(texts_view(values@)),
{
    let ghost texts = texts_view(values@);
    let mut out: Vec<(String, String)> = Vec::new();
    let mut i: usize = 0;
    assert(texts.take(0) =~= Seq::<Seq<char>>::empty());
    assert(pairs_view(out@) =~= Seq::<(Seq<char>, Seq<char>)>::empty());
    while i < values.len()
        invariant
            i <= values.len(),
            texts == texts_view(values@),
            pairs_view(out@) == key_values(texts.take(i as int)),
        decreases values.len() - i,
    {
        assert(texts.take(i + 1).drop_last() =~= texts.take(i as int));
        assert(texts.take(i + 1).last() == values@[i as int]@);
        let ghost before = pairs_view(out@);
        match split_key_value(values[i].as_str()) {
            Some((k, v)) => {
                out.push((k.to_owned(), v.to_owned()));
                assert(pairs_view(out@) =~= before.push((k@, v@)));
            },
            None => {},
        }
        i += 1;
    }
    assert(texts.take(i as int) =~= texts);
    out
}

/// Reads `KEY=VALUE` query arguments; one without a separator is passed over.
pub fn parse_key_values(values: &Vec<String>) -> (out: Vec<(String, String)>)
    ensures
        pairs_view(out@) == key_values(texts_view(values@)),
{
    parse_headers(values)
}

/// The bytes that percent-encoding leaves as they are: ASCII letters and
/// digits, `-`, `.`, `_` and `~`.
pub open spec fn is_unreserved(b: u8) -> bool {
    ||| (0x30 <= b && b <= 0x39)
    ||| (0x41 <= b && b <= 0x5a)
    ||| (0x61 <= b && b <= 0x7a)
    ||| b == 0x2d
    ||| b == 0x2e
    ||| b == 0x5f
    ||| b == 0x7e
}

/// The upper-case hexadecimal digit for `d < 16`.
pub open spec fn hex_digit(d: u8) -> char {
    if d < 10 {
        (0x30 + d) as char
    } else {
        (0x37 + d) as char
    }
}

/// The percent-encoding of a run of bytes: an unreserved byte stands for
/// itself, any other byte becomes `%` and its two hexadecimal digits.
pub open spec fn percent_encoded(bytes: Seq<u8>) -> Seq<char>
    decreases bytes.len(),
{
    if bytes.len() == 0 {
        Seq::empty()
    } else {
        let b = bytes[0];
        let head = if is_unreserved(b) {
            seq![b as char]
        } else {
            seq!['%', hex_digit(b / 16), hex_digit(b % 16)]
        };
        head + percent_encoded(bytes.drop_first())
    }
}

/// `urlencoding::encode`: percent-encodes the UTF-8 bytes of `value`, every
/// byte but ASCII letters, digits, `-`, `.`, `_` and `~`, with upper-case
/// hexadecimal digits.
#[verifier::external_body]
fn percent_encode(value: &str) -> (out: String)
    ensures
        out@ == percent_encoded(value.spec_bytes()),
{
    urlencoding::encode(value).into_owned()
}

/// What the command line gave for one flag: its values, in the order given.
#[derive(Debug, PartialEq, Eq)]
pub struct FlagValues {
    pub flag: String,
    pub values: Vec<String>,
}

/// Model of [`FlagValues`].
pub struct FlagModel {
    pub flag: Seq<char>,
    pub values: Seq<Seq<char>>,
}

impl View for FlagValues {
    type V = FlagModel;

    open spec fn view(&self) -> FlagModel {
        FlagModel { flag: self.flag@, values: texts_view(self.values@) }
    }
}

/// The models of a run of flags.
pub open spec fn flags_view(v: Seq<FlagValues>) -> Seq<FlagModel> {
    Seq::new(v.len(), |i: int| v[i]@)
}

/// The identifiers that the environment supplies where the command line
/// gives none: the values of `CLOUDFLARE_ACCOUNT_ID` and `CLOUDFLARE_ZONE_ID`.
#[derive(Debug, PartialEq, Eq)]
pub struct EnvDefaults {
    pub account_id: Option<String>,
    pub zone_id: Option<String>,
}

/// Model of [`EnvDefaults`].
pub struct EnvModel {
    pub account_id: Option<Seq<char>>,
    pub zone_id: Option<Seq<char>>,
}

impl View for EnvDefaults {
    type V = EnvModel;

    open spec fn view(&self) -> EnvModel {
        EnvModel {
            account_id: text_view(self.account_id),
            zone_id: text_view(self.zone_id),
        }
    }
}

/// The path, query and headers of a request.
#[derive(Debug, PartialEq, Eq)]
pub struct RequestParts {
    pub path: String,
    pub query: Vec<(String, String)>,
    pub headers: Vec<(String, String)>,
}

/// Model of [`RequestParts`].
pub struct PartsModel {
    pub path: Seq<char>,
    pub query: Seq<(Seq<char>, Seq<char>)>,
    pub headers: Seq<(Seq<char>, Seq<char>)>,
}

impl View for RequestParts {
    type V = PartsModel;

    open spec fn view(&self) -> PartsModel {
        PartsModel {
            path: self.path@,
            query: pairs_view(self.query@),
            headers: pairs_view(self.headers@),
        }
    }
}

/// Why a request cannot be built; each error names the parameter.
#[derive(Debug, PartialEq, Eq)]
pub enum RequestError {
    /// A path parameter has no value on the command line or in the environment.
    MissingPathParam(String),
    /// A required query parameter has no value.
    MissingQueryParam(String),
    /// A required header parameter has no value.
    MissingHeaderParam(String),
}

/// Model of [`RequestError`].
pub enum RequestFault {
    MissingPathParam(Seq<char>),
    MissingQueryParam(Seq<char>),
    MissingHeaderParam(Seq<char>),
}

impl View for RequestError {
    type V = RequestFault;

    open spec fn view(&self) -> RequestFault {
        match self {
            RequestError::MissingPathParam(name) => RequestFault::MissingPathParam(name@),
            RequestError::MissingQueryParam(name) => RequestFault::MissingQueryParam(name@),
            RequestError::MissingHeaderParam(name) => RequestFault::MissingHeaderParam(name@),
        }
    }
}

impl RequestFault {
    /// The message for each error.
    pub open spec fn message_text(self) -> Seq<char> {
        match self {
            RequestFault::MissingPathParam(name) => "missing path param "@ + name,
            RequestFault::MissingQueryParam(name) => "missing query param "@ + name,
            RequestFault::MissingHeaderParam(name) => "missing header param "@ + name,
        }
    }
}

impl RequestError {
    /// A one-line description of the error.
    pub fn message(&self) -> (out: String)
        ensures
            out@ == self@.message_text(),
    {
        match self {
            RequestError::MissingPathParam(name) => joined("missing path param ", name.as_str()),
            RequestError::MissingQueryParam(name) => joined("missing query param ", name.as_str()),
            RequestError::MissingHeaderParam(name) => joined(
                "missing header param ",
                name.as_str(),
            ),
        }
    }
}

/// The value that the environment supplies for a parameter called `name`:
/// the account identifier for `account_id`, `account_identifier` and
/// `accountId`, the zone identifier for `zone_id`, `zone_identifier` and
/// `zoneId`, nothing for any other name.
pub open spec fn env_default(name: Seq<char>, env: EnvModel) -> Option<Seq<char>> {
    if name == "account_id"@ || name == "account_identifier"@ || name == "accountId"@ {
        env.account_id
    } else if name == "zone_id"@ || name == "zone_identifier"@ || name == "zoneId"@ {
        env.zone_id
    } else {
        None
    }
}

/// The values given for `flag`: those of the first entry for it, none where
/// there is no entry.
pub open spec fn given(inputs: Seq<FlagModel>, flag: Seq<char>) -> Seq<Seq<char>>
    decreases inputs.len(),
{
    if inputs.len() == 0 {
        Seq::empty()
    } else if inputs[0].flag == flag {
        inputs[0].values
    } else {
        given(inputs.drop_first(), flag)
    }
}

/// The one value of a parameter: the first given for its flag, else what
/// the environment supplies for its name.
pub open spec fn single_value(param: ParamModel, inputs: Seq<FlagModel>, env: EnvModel) -> Option<
    Seq<char>,
> {
    if given(inputs, param.flag).len() > 0 {
        Some(given(inputs, param.flag)[0])
    } else {
        env_default(param.name, env)
    }
}

/// The values that a run of list arguments stands for, in order.
pub open spec fn flattened(items: Seq<Seq<char>>) -> Seq<Seq<char>>
    decreases items.len(),
{
    if items.len() == 0 {
        Seq::empty()
    } else {
        flattened(items.drop_last()) + list_items(items.last())
    }
}

/// The values of a parameter: for a list parameter all that its arguments
/// stand for, else the first value given for its flag, if any.
pub open spec fn many_values(param: ParamModel, inputs: Seq<FlagModel>) -> Seq<Seq<char>> {
    if param.list {
        flattened(given(inputs, param.flag))
    } else if given(inputs, param.flag).len() > 0 {
        seq![given(inputs, param.flag)[0]]
    } else {
        Seq::empty()
    }
}

/// The placeholder of a path parameter in a path template: `{name}`.
pub open spec fn placeholder(name: Seq<char>) -> Seq<char> {
    seq!['{'] + name + seq!['}']
}

/// Each of `values` paired with `name`.
pub open spec fn named(name: Seq<char>, values: Seq<Seq<char>>) -> Seq<(Seq<char>, Seq<char>)> {
    Seq::new(values.len(), |i: int| (name, values[i]))
}

/// The request parts after one parameter was applied. A path parameter
/// fills its placeholder with its percent-encoded value and must have one; a
/// query or header parameter adds one pair per value and must have a value
/// where it is required; a parameter anywhere else changes nothing.
pub open spec fn apply_param(
    parts: PartsModel,
    param: ParamModel,
    inputs: Seq<FlagModel>,
    env: EnvModel,
) -> Result<PartsModel, RequestFault> {
    if param.location == "path"@ {
        match single_value(param, inputs, env) {
            None => Err(RequestFault::MissingPathParam(param.name)),
            Some(value) => Ok(
                PartsModel {
                    path: replaced(
                        parts.path,
                        placeholder(param.name),
                        percent_encoded(encode_utf8(value)),
                    ),
                    query: parts.query,
                    headers: parts.headers,
                },
            ),
        }
    } else if param.location == "query"@ {
        if param.required && many_values(param, inputs).len() == 0 {
            Err(RequestFault::MissingQueryParam(param.name))
        } else {
            Ok(
                PartsModel {
                    path: parts.path,
                    query: parts.query + named(param.name, many_values(param, inputs)),
                    headers: parts.headers,
                },
            )
        }
    } else if param.location == "header"@ {
        if param.required && many_values(param, inputs).len() == 0 {
            Err(RequestFault::MissingHeaderParam(param.name))
        } else {
            Ok(
                PartsModel {
                    path: parts.path,
                    query: parts.query,
                    headers: parts.headers + named(param.name, many_values(param, inputs)),
                },
            )
        }
    } else {
        Ok(parts)
    }
}

/// [`apply_param`] for each of `params[from..]`, in order, up to the first error.
pub open spec fn apply_params(
    parts: PartsModel,
    params: Seq<ParamModel>,
    from: int,
    inputs: Seq<FlagModel>,
    env: EnvModel,
) -> Result<PartsModel, RequestFault>
    decreases params.len() - from,
{
    if from < 0 || from >= params.len() {
        Ok(parts)
    } else {
        match apply_param(parts, params[from], inputs, env) {
            Ok(next) => apply_params(next, params, from + 1, inputs, env),
            Err(e) => Err(e),
        }
    }
}

/// The parts of the request for `op`: its path template with every path
/// parameter filled in, and the query and header pairs of its parameters in
/// the order of the parameters; or the first error in that order.
pub open spec fn request_parts(op: OperationModel, inputs: Seq<FlagModel>, env: EnvModel) -> Result<
    PartsModel,
    RequestFault,
> {
    apply_params(
        PartsModel { path: op.path, query: Seq::empty(), headers: Seq::empty() },
        op.parameters,
        0,
        inputs,
        env,
    )
}

/// The text of the URL for `path` under `base`: the base without the
/// slashes at its end, a slash, and the path without the slashes at its start.
pub open spec fn url_text(base: Seq<char>, path: Seq<char>) -> Seq<char> {
    strip_trailing(base, '/') + seq!['/'] + strip_leading(path, '/')
}

/// The value that the environment supplies for a parameter called `name`.
pub fn default_env_for_param(name: &str, env: &EnvDefaults) -> (out: Option<String>)
    ensures
        text_view(out) == env_default(name@, env@),
{
    if same_text(name, "account_id") || same_text(name, "account_identifier") || same_text(
        name,
        "accountId",
    ) {
        clone_text(&env.account_id)
    } else if same_text(name, "zone_id") || same_text(name, "zone_identifier") || same_text(
        name,
        "zoneId",
    ) {
        clone_text(&env.zone_id)
    } else {
        None
    }
}

/// The values given for `flag` on the command line.
fn values_for<'a>(inputs: &'a Vec<FlagValues>, flag: &str) -> (out: Option<&'a Vec<String>>)
    ensures
        match out {
            Some(values) => texts_view(values@) == given(flags_view(inputs@), flag@),
            None => given(flags_view(inputs@), flag@) == Seq::<Seq<char>>::empty(),
        },
{
    let ghost models = flags_view(inputs@);
    let mut i: usize = 0;
    assert(models.skip(0) =~= models);
    while i < inputs.len()
        invariant
            i <= inputs.len(),
            models == flags_view(inputs@),
            given(models, flag@) == given(models.skip(i as int), flag@),
        decreases inputs.len() - i,
    {
        assert(models.skip(i as int)[0] == inputs@[i as int]@);
        if same_text(inputs[i].flag.as_str(), flag) {
            return Some(&inputs[i].values);
        }
        assert(models.skip(i as int).drop_first() =~= models.skip(i + 1));
        i += 1;
    }
    None
}

/// The one value of a parameter: the first given for its flag, else what
/// the environment supplies for its name.
pub fn resolve_param_value(param: &ParamDef, inputs: &Vec<FlagValues>, env: &EnvDefaults) -> (out:
    Option<String>)
    ensures
        text_view(out) == single_value(param@, flags_view(inputs@), env@),
{
    match values_for(inputs, param.flag.as_str()) {
        Some(values) => {
            if values.len() > 0 {
                return Some(values[0].clone());
            }
        },
        None => {},
    }
    default_env_for_param(param.name.as_str(), env)
}

/// The values of a parameter: for a list parameter every value that its
/// arguments stand for, else the first value given for its flag, if any.
pub fn resolve_param_values(param: &ParamDef, inputs: &Vec<FlagValues>) -> (out: Vec<String>)
    ensures
        texts_view(out@) == many_values(param@, flags_view(inputs@)),
{
    let mut out: Vec<String> = Vec::new();
    assert(texts_view(out@) =~= Seq::<Seq<char>>::empty());
    let values = match values_for(inputs, param.flag.as_str()) {
        Some(values) => values,
        None => {
            return out;
        },
    };
    let ghost texts = texts_view(values@);
    if param.list {
        let mut i: usize = 0;
        assert(texts.take(0) =~= Seq::<Seq<char>>::empty());
        while i < values.len()
            invariant
                i <= values.len(),
                texts == texts_view(values@),
                texts_view(out@) == flattened(texts.take(i as int)),
            decreases values.len() - i,
        {
            assert(texts.take(i + 1).drop_last() =~= texts.take(i as int));
            assert(texts.take(i + 1).last() == values@[i as int]@);
            let ghost before = texts_view(out@);
            let mut pieces = split_list(values[i].as_str());
            let ghost added = texts_view(pieces@);
            out.append(&mut pieces);
            assert(texts_view(out@) =~= before + added);
            i += 1;
        }
        assert(texts.take(i as int) =~= texts);
        out
    } else {
        if values.len() > 0 {
            out.push(values[0].clone());
            assert(texts_view(out@) =~= seq![texts[0]]);
        }
        out
    }
}

/// Adds one pair to `pairs` for each of `values`, each under `name`.
fn push_named(pairs: &mut Vec<(String, String)>, name: &str, values: Vec<String>)
    ensures
        pairs_view(final(pairs)@) == pairs_view(old(pairs)@) + named(name@, texts_view(values@)),
{
    let ghost before = pairs_view(pairs@);
    let ghost all = values@;
    let ghost texts = texts_view(values@);
    assert(pairs_view(pairs@) =~= before + named(name@, texts.take(0)));
    for value in it: values
        invariant
            it.seq() == all,
            texts == texts_view(all),
            pairs_view(pairs@) == before + named(name@, texts.take(it.index())),
    {
        let ghost so_far = pairs_view(pairs@);
        pairs.push((name.to_owned(), value));
        assert(pairs_view(pairs@) =~= so_far.push((name@, value@)));
        assert(named(name@, texts.take(it.index() + 1)) =~= named(
            name@,
            texts.take(it.index()),
        ).push((name@, value@)));
    }
    assert(texts.take(all.len() as int) =~= texts);
}

/// Applies one parameter of an operation to the request parts.
fn apply_parameter(
    parts: &mut RequestParts,
    param: &ParamDef,
    inputs: &Vec<FlagValues>,
    env: &EnvDefaults,
) -> (out: Result<(), RequestError>)
    ensures
        match out {
            Ok(_) => apply_param(old(parts)@, param@, flags_view(inputs@), env@) == Ok::<
                PartsModel,
                RequestFault,
            >(final(parts)@),
            Err(e) => apply_param(old(parts)@, param@, flags_view(inputs@), env@) == Err::<
                PartsModel,
                RequestFault,
            >(e@),
        },
{
    if same_text(param.location.as_str(), "path") {
        let value = match resolve_param_value(param, inputs, env) {
            Some(value) => value,
            None => {
                return Err(RequestError::MissingPathParam(param.name.clone()));
            },
        };
        proof {
            reveal_strlit("{");
            reveal_strlit("}");
            assert("{"@ =~= seq!['{']);
            assert("}"@ =~= seq!['}']);
        }
        let open = joined("{", param.name.as_str());
        let hole = joined(open.as_str(), "}");
        let encoded = percent_encode(value.as_str());
        parts.path = replace_all(parts.path.as_str(), hole.as_str(), encoded.as_str());
        Ok(())
    } else if same_text(param.location.as_str(), "query") {
        let values = resolve_param_values(param, inputs);
        if param.required && values.len() == 0 {
            return Err(RequestError::MissingQueryParam(param.name.clone()));
        }
        push_named(&mut parts.query, param.name.as_str(), values);
        Ok(())
    } else if same_text(param.location.as_str(), "header") {
        let values = resolve_param_values(param, inputs);
        if param.required && values.len() == 0 {
            return Err(RequestError::MissingHeaderParam(param.name.clone()));
        }
        push_named(&mut parts.headers, param.name.as_str(), values);
        Ok(())
    } else {
        Ok(())
    }
}

/// Builds the path, query and headers of the request for `op` from what the
/// command line gave for each flag and what the environment supplies.
///
/// The parameters are applied in their order. A path parameter takes the
/// first value given for its flag, else the environment's value for its
/// name, and fills `{name}` in the path with that value percent-encoded; a
/// query or header parameter adds one pair per value. The first path
/// parameter without a value, or required query or header parameter without
/// one, decides the error.
pub fn build_request(op: &Operation, inputs: &Vec<FlagValues>, env: &EnvDefaults) -> (out: Result<
    RequestParts,
    RequestError,
>)
    ensures
        match out {
            Ok(parts) => request_parts(op@, flags_view(inputs@), env@) == Ok::<
                PartsModel,
                RequestFault,
            >(parts@),
            Err(e) => request_parts(op@, flags_view(inputs@), env@) == Err::<
                PartsModel,
                RequestFault,
            >(e@),
        },
{
    let mut parts = RequestParts { path: op.path.clone(), query: Vec::new(), headers: Vec::new() };
    let ghost params = op@.parameters;
    let ghost start = parts@;
    assert(start.query =~= Seq::<(Seq<char>, Seq<char>)>::empty());
    assert(start.headers =~= Seq::<(Seq<char>, Seq<char>)>::empty());
    let mut i: usize = 0;
    while i < op.parameters.len()
        invariant
            i <= op.parameters.len(),
            params == op@.parameters,
            params.len() == op.parameters.len(),
            request_parts(op@, flags_view(inputs@), env@) == apply_params(
                start,
                params,
                0,
                flags_view(inputs@),
                env@,
            ),
            apply_params(parts@, params, i as int, flags_view(inputs@), env@) == apply_params(
                start,
                params,
                0,
                flags_view(inputs@),
                env@,
            ),
        decreases op.parameters.len() - i,
    {
        assert(params[i as int] == op.parameters@[i as int]@);
        match apply_parameter(&mut parts, &op.parameters[i], inputs, env) {
            Ok(_) => {},
            Err(e) => {
                return Err(e);
            },
        }
        i += 1;
    }
    Ok(parts)
}

/// The text of the URL for `path` under `base`, with exactly one slash
/// between the two.
pub fn build_url(base: &str, path: &str) -> (out: String)
    ensures
        out@ == url_text(base@, path@),
{
    let b = chars_of(base);
    let p = chars_of(path);
    let mut end: usize = b.len();
    assert(b@.take(end as int) =~= b@);
    while end > 0 && b[end - 1] == '/'
        invariant
            end <= b.len(),
            strip_trailing(b@.take(end as int), '/') == strip_trailing(b@, '/'),
        decreases end,
    {
        assert(b@.take(end as int).drop_last() =~= b@.take(end - 1));
        end -= 1;
    }
    let mut start: usize = 0;
    assert(p@.skip(0) =~= p@);
    while start < p.len() && p[start] == '/'
        invariant
            start <= p.len(),
            strip_leading(p@.skip(start as int), '/') == strip_leading(p@, '/'),
        decreases p.len() - start,
    {
        assert(p@.skip(start as int).drop_first() =~= p@.skip(start + 1));
        start += 1;
    }
    let head = string_of_range(&b, 0, end);
    let tail = string_of_range(&p, start, p.len());
    proof {
        reveal_strlit("/");
        assert("/"@ =~= seq!['/']);
        assert(b@.subrange(0, end as int) =~= b@.take(end as int));
        assert(p@.subrange(start as int, p.len() as int) =~= p@.skip(start as int));
    }
    let stem = joined(head.as_str(), "/");
    joined(stem.as_str(), tail.as_str())
}

/// Where the JSON body of a request comes from.
#[derive(Debug, PartialEq, Eq)]
pub enum BodySource<'a> {
    /// The text given with `--body`.
    Inline(&'a str),
    /// The file named with `--body-file`, to be read.
    File(&'a str),
    /// The request has no body.
    Absent,
}

/// Decides where the body of a request comes from: the inline text where
/// one is given, else the named file, else nowhere.
pub fn body_source<'a>(body: Option<&'a str>, body_file: Option<&'a str>) -> (out: BodySource<'a>)
    ensures
        match out {
            BodySource::Inline(text) => body == Some(text),
            BodySource::File(path) => body is None && body_file == Some(path),
            BodySource::Absent => body is None && body_file is None,
        },
{
    match body {
        Some(text) => BodySource::Inline(text),
        None => match body_file {
            Some(path) => BodySource::File(path),
            None => BodySource::Absent,
        },
    }
}

} // verus!
