use vstd::prelude::*;
use crate::api::{ElementType, VrApiReq, VrApiRsp, ReqView, RspView, strings_view};

verus! {

/// How to use the command-line client.
pub const USAGE: &'static str = "Usage: v2r2-cli-client <IpAddress> [-e <command>]

    Commands:
        create <Element Type> <Path>
        put <Path> <Data> [CAS Version]
        delete <Path> [CAS Version]
        get <Path> [\"CAS\"]
        list <Path>

    Flags:
        -e <Command>   Non-interactive mode

    Element Types:
        binary
        list
        queue
        set

    Examples:
        Create a node /foo
            v2r2> create binary /foo
        Put data to /foo
            v2r2> put /foo newdata
        Put data only if the version matches existing data
            v2r2> put /foo somedata 0:0:2

    ";

/// Why a command line was not understood.
#[derive(Clone, Copy, Debug, PartialEq, Eq, Structural)]
pub enum CommandError {
    /// The command does not follow the usage text.
    Usage,
    /// The CAS version given is not an integer.
    BadCasVersion,
}

/// The words of `s` as `str::split_whitespace` separates them.
pub uninterp spec fn words_of(s: Seq<char>) -> Seq<Seq<char>>;

/// The client identifier that `uuid::Uuid::parse_str` reads from `s`, if any.
pub uninterp spec fn uuid_of(s: Seq<char>) -> Option<u128>;

/// Relies on `str::split_whitespace`: the words of `s`, in order.
#[verifier::external_body]
fn split_words(s: &str) -> (r: Vec<String>)
    ensures
        strings_view(r@) == words_of(s@),
{
    s.split_whitespace().map(|w| w.to_string()).collect()
}

/// Relies on `uuid::Uuid::parse_str`, read as the 128-bit value of the UUID.
#[verifier::external_body]
fn parse_uuid(s: &str) -> (r: Option<u128>)
    ensures
        r == uuid_of(s@),
{
    match uuid::Uuid::parse_str(s) {
        Ok(u) => Some(u.as_u128()),
        Err(_) => None,
    }
}

/// The value of a non-empty string of decimal digits.
pub open spec fn digits_value(s: Seq<char>) -> int
    decreases s.len(),
{
    if s.len() == 0 {
        0
    } else {
        digits_value(s.drop_last()) * 10 + (s.last() as int - '0' as int)
    }
}

/// What `u64::from_str` accepts: an optional '+', then one or more decimal
/// digits whose value fits in 64 bits.
pub open spec fn decimal_u64(s: Seq<char>) -> Option<u64> {
    let d = if s.len() > 0 && s[0] == '+' {
        s.skip(1)
    } else {
        s
    };
    if d.len() > 0 && (forall|i: int| 0 <= i < d.len() ==> '0' <= #[trigger] d[i] <= '9')
        && digits_value(d) <= u64::MAX {
        Some(digits_value(d) as u64)
    } else {
        None
    }
}

/// Relies on `u64::from_str`: the decimal number written in `s`.
#[verifier::external_body]
fn parse_u64(s: &str) -> (r: Option<u64>)
    ensures
        r == decimal_u64(s@),
{
    s.parse::<u64>().ok()
}

/// The decimal digits of `n`.
pub open spec fn decimal_text(n: nat) -> Seq<char>
    decreases n,
{
    if n < 10 {
        seq![('0' as u8 + n) as char]
    } else {
        decimal_text(n / 10).push(('0' as u8 + n % 10) as char)
    }
}

/// Relies on `u64::to_string`: the decimal digits of `n`.
#[verifier::external_body]
fn decimal(n: u64) -> (r: String)
    ensures
        r@ == decimal_text(n as nat),
{
    n.to_string()
}

/// The bytes are the UTF-8 encoding of some text.
pub open spec fn is_utf8(b: Seq<u8>) -> bool {
    exists|t: Seq<char>| vstd::utf8::encode_utf8(t) == b
}

/// Relies on `std::str::from_utf8`: it fails exactly on bytes that are not
/// UTF-8, and otherwise gives the text they encode.
#[verifier::external_body]
fn utf8_text(b: &[u8]) -> (r: Option<String>)
    ensures
        r is None <==> !is_utf8(b@),
        r matches Some(t) ==> vstd::utf8::encode_utf8(t@) == b@,
{
    match std::str::from_utf8(b) {
        Ok(t) => Some(t.to_string()),
        Err(_) => None,
    }
}

/// The element type a word names.
pub open spec fn element_type_of(w: Seq<char>) -> Option<ElementType> {
    if w == "binary"@ {
        Some(ElementType::Binary)
    } else if w == "list"@ {
        Some(ElementType::List)
    } else if w == "queue"@ {
        Some(ElementType::Queue)
    } else if w == "set"@ {
        Some(ElementType::UnorderedSet)
    } else {
        None
    }
}

/// The CAS version optionally given as word `i` of `w`.
pub open spec fn cas_word(w: Seq<Seq<char>>, i: int) -> Result<Option<u64>, CommandError> {
    if w.len() <= i {
        Ok(None)
    } else {
        match decimal_u64(w[i]) {
            Some(t) => Ok(Some(t)),
            None => Err(CommandError::BadCasVersion),
        }
    }
}

/// `create <type> <path>`, the words after the first.
pub open spec fn create_spec(w: Seq<Seq<char>>) -> Result<ReqView, CommandError> {
    if w.len() == 3 && element_type_of(w[1]) is Some {
        Ok(ReqView::Create { path: w[2], ty: element_type_of(w[1])->0 })
    } else {
        Err(CommandError::Usage)
    }
}

/// `put <path> <data> [cas]`; words after these are not read.
pub open spec fn put_spec(w: Seq<Seq<char>>) -> Result<ReqView, CommandError> {
    if w.len() < 3 {
        Err(CommandError::Usage)
    } else {
        match cas_word(w, 3) {
            Ok(t) => Ok(ReqView::Put { path: w[1], data: vstd::utf8::encode_utf8(w[2]), cas_tag: t }),
            Err(e) => Err(e),
        }
    }
}

/// `delete <path> [cas]`; words after these are not read.
pub open spec fn delete_spec(w: Seq<Seq<char>>) -> Result<ReqView, CommandError> {
    if w.len() < 2 {
        Err(CommandError::Usage)
    } else {
        match cas_word(w, 2) {
            Ok(t) => Ok(ReqView::Delete { path: w[1], cas_tag: t }),
            Err(e) => Err(e),
        }
    }
}

/// `get <path> [cas]`.
pub open spec fn get_spec(w: Seq<Seq<char>>) -> Result<ReqView, CommandError> {
    if w.len() == 2 {
        Ok(ReqView::Get { path: w[1], cas: false })
    } else if w.len() == 3 && w[2] == "cas"@ {
        Ok(ReqView::Get { path: w[1], cas: true })
    } else {
        Err(CommandError::Usage)
    }
}

/// `list <path>`.
pub open spec fn list_spec(w: Seq<Seq<char>>) -> Result<ReqView, CommandError> {
    if w.len() == 2 {
        Ok(ReqView::List { path: w[1] })
    } else {
        Err(CommandError::Usage)
    }
}

/// The request a command line of words `w` asks for.
pub open spec fn command_spec(w: Seq<Seq<char>>) -> Result<ReqView, CommandError> {
    if w.len() == 0 {
        Err(CommandError::Usage)
    } else if w[0] == "create"@ {
        create_spec(w)
    } else if w[0] == "put"@ {
        put_spec(w)
    } else if w[0] == "delete"@ {
        delete_spec(w)
    } else if w[0] == "get"@ {
        get_spec(w)
    } else if w[0] == "list"@ {
        list_spec(w)
    } else {
        Err(CommandError::Usage)
    }
}

/// The result of a parse, as a value.
pub open spec fn parsed_view(r: Result<VrApiReq, CommandError>) -> Result<ReqView, CommandError> {
    match r {
        Ok(q) => Ok(q@),
        Err(e) => Err(e),
    }
}

fn word_is(w: &String, lit: &str) -> (r: bool)
    ensures
        r == (w@ == lit@),
{
    *w == lit.to_string()
}

fn word_bytes(w: &String) -> (r: Vec<u8>)
    ensures
        r@ == vstd::utf8::encode_utf8(w@),
{
    let b = w.as_str().as_bytes();
    let mut r: Vec<u8> = Vec::new();
    let mut i: usize = 0;
    while i < b.len()
        invariant
            i <= b@.len(),
            r@ == b@.take(i as int),
        decreases b@.len() - i,
    {
        r.push(b[i]);
        i = i + 1;
        assert(r@ =~= b@.take(i as int));
    }
    assert(b@.take(b@.len() as int) =~= b@);
    r
}

impl ElementType {
    /// The element type a word names: `binary`, `list`, `queue` or `set`.
    pub fn parse(w: &String) -> (r: Option<ElementType>)
        ensures
            r == element_type_of(w@),
    {
        if word_is(w, "binary") {
            Some(ElementType::Binary)
        } else if word_is(w, "list") {
            Some(ElementType::List)
        } else if word_is(w, "queue") {
            Some(ElementType::Queue)
        } else if word_is(w, "set") {
            Some(ElementType::UnorderedSet)
        } else {
            None
        }
    }
}

fn cas_at(words: &Vec<String>, i: usize) -> (r: Result<Option<u64>, CommandError>)
    ensures
        r == cas_word(strings_view(words@), i as int),
{
    if words.len() <= i {
        Ok(None)
    } else {
        match parse_u64(words[i].as_str()) {
            Some(t) => Ok(Some(t)),
            None => Err(CommandError::BadCasVersion),
        }
    }
}

/// The words of a `create` command.
pub fn parse_create(words: &Vec<String>) -> (r: Result<VrApiReq, CommandError>)
    ensures
        parsed_view(r) == create_spec(strings_view(words@)),
{
    if words.len() != 3 {
        return Err(CommandError::Usage);
    }
    match ElementType::parse(&words[1]) {
        Some(ty) => Ok(VrApiReq::Create { path: words[2].clone(), ty }),
        None => Err(CommandError::Usage),
    }
}

/// The words of a `put` command.
pub fn parse_put(words: &Vec<String>) -> (r: Result<VrApiReq, CommandError>)
    ensures
        parsed_view(r) == put_spec(strings_view(words@)),
{
    if words.len() < 3 {
        return Err(CommandError::Usage);
    }
    let path = words[1].clone();
    let data = word_bytes(&words[2]);
    match cas_at(words, 3) {
        Ok(cas_tag) => Ok(VrApiReq::Put { path, data, cas_tag }),
        Err(e) => Err(e),
    }
}

/// The words of a `delete` command.
pub fn parse_delete(words: &Vec<String>) -> (r: Result<VrApiReq, CommandError>)
    ensures
        parsed_view(r) == delete_spec(strings_view(words@)),
{
    if words.len() < 2 {
        return Err(CommandError::Usage);
    }
    match cas_at(words, 2) {
        Ok(cas_tag) => Ok(VrApiReq::Delete { path: words[1].clone(), cas_tag }),
        Err(e) => Err(e),
    }
}

/// The words of a `get` command.
pub fn parse_get(words: &Vec<String>) -> (r: Result<VrApiReq, CommandError>)
    ensures
        parsed_view(r) == get_spec(strings_view(words@)),
{
    if words.len() == 2 {
        Ok(VrApiReq::Get { path: words[1].clone(), cas: false })
    } else if words.len() == 3 && word_is(&words[2], "cas") {
        Ok(VrApiReq::Get { path: words[1].clone(), cas: true })
    } else {
        Err(CommandError::Usage)
    }
}

/// The words of a `list` command.
pub fn parse_list(words: &Vec<String>) -> (r: Result<VrApiReq, CommandError>)
    ensures
        parsed_view(r) == list_spec(strings_view(words@)),
{
    if words.len() == 2 {
        Ok(VrApiReq::List { path: words[1].clone() })
    } else {
        Err(CommandError::Usage)
    }
}

/// The request that a command line, split into words, asks for.
pub fn parse_words(words: &Vec<String>) -> (r: Result<VrApiReq, CommandError>)
    ensures
        parsed_view(r) == command_spec(strings_view(words@)),
{
    if words.len() == 0 {
        Err(CommandError::Usage)
    } else if word_is(&words[0], "create") {
        parse_create(words)
    } else if word_is(&words[0], "put") {
        parse_put(words)
    } else if word_is(&words[0], "delete") {
        parse_delete(words)
    } else if word_is(&words[0], "get") {
        parse_get(words)
    } else if word_is(&words[0], "list") {
        parse_list(words)
    } else {
        Err(CommandError::Usage)
    }
}

/// The request that a command line asks for.
pub fn parse(command: &str) -> (r: Result<VrApiReq, CommandError>)
    ensures
        parsed_view(r) == command_spec(words_of(command@)),
{
    let words = split_words(command);
    parse_words(&words)
}

/// The usage text of the client.
pub fn help() -> (r: String)
    ensures
        r@ == USAGE@,
{
    USAGE.to_string()
}

/// Shown in place of element data that is not UTF-8.
pub const NOT_UTF8: &'static str = "<data is not UTF-8>";

pub open spec fn keys_text(keys: Seq<Seq<char>>) -> Seq<char>
    decreases keys.len(),
{
    if keys.len() == 0 {
        Seq::empty()
    } else {
        keys_text(keys.drop_last()) + keys.last() + "\n"@
    }
}

pub open spec fn cas_prefix(cas_tag: Option<u64>) -> Seq<char> {
    match cas_tag {
        Some(t) => "CAS: "@ + decimal_text(t as nat) + "\n"@,
        None => Seq::empty(),
    }
}

/// The text the client shows for a reply. Element data shows as the text it
/// encodes in UTF-8, or as a note when it is not UTF-8.
pub open spec fn reply_text(r: RspView, data_text: Seq<char>) -> Seq<char> {
    match r {
        RspView::Success => "ok"@,
        RspView::Timeout => "Timeout"@,
        RspView::Element { data, cas_tag } => cas_prefix(cas_tag) + data_text,
        RspView::KeyList { keys } => keys_text(keys),
        RspView::ParentNotFoundError => "Parent path not found"@,
        RspView::ElementAlreadyExistsError => "Element already exists"@,
        RspView::ElementNotFoundError(p) => "Element "@ + p + " Not found"@,
        RspView::CasFailedError { path, expected, actual } => "CAS on "@ + path + " failed. Expected: "@
            + decimal_text(expected as nat) + ", Actual: "@ + decimal_text(actual as nat),
        RspView::Error { msg } => msg,
    }
}

fn push_str(s: &mut String, t: &str)
    ensures
        final(s)@ == old(s)@ + t@,
{
    s.append(t);
}

/// How the client shows a reply.
pub fn format_reply(rsp: &VrApiRsp) -> (r: String)
    ensures
        rsp is Element && !is_utf8(rsp->Element_data@) ==> r@ == reply_text(rsp@, NOT_UTF8@),
        rsp is Element && is_utf8(rsp->Element_data@) ==> exists|t: Seq<char>|
            vstd::utf8::encode_utf8(t) == rsp->Element_data@ && r@ == reply_text(rsp@, t),
        !(rsp is Element) ==> r@ == reply_text(rsp@, Seq::empty()),
{
    match rsp {
        VrApiRsp::Success => "ok".to_string(),
        VrApiRsp::Timeout => "Timeout".to_string(),
        VrApiRsp::Element { data, cas_tag } => {
            let mut out = String::new();
            match cas_tag {
                Some(t) => {
                    push_str(&mut out, "CAS: ");
                    let d = decimal(*t);
                    push_str(&mut out, d.as_str());
                    push_str(&mut out, "\n");
                },
                None => {},
            }
            assert(out@ =~= cas_prefix(*cas_tag));
            match utf8_text(data.as_slice()) {
                Some(text) => {
                    push_str(&mut out, text.as_str());
                },
                None => {
                    push_str(&mut out, NOT_UTF8);
                },
            }
            out
        },
        VrApiRsp::KeyList { keys } => {
            let mut out = String::new();
            let mut i: usize = 0;
            while i < keys.len()
                invariant
                    i <= keys.len(),
                    out@ == keys_text(strings_view(keys@).take(i as int)),
                decreases keys.len() - i,
            {
                assert(strings_view(keys@).take(i + 1).drop_last() =~= strings_view(keys@).take(i as int));
                push_str(&mut out, keys[i].as_str());
                push_str(&mut out, "\n");
                i = i + 1;
            }
            assert(strings_view(keys@).take(keys.len() as int) =~= strings_view(keys@));
            out
        },
        VrApiRsp::ParentNotFoundError => "Parent path not found".to_string(),
        VrApiRsp::ElementAlreadyExistsError => "Element already exists".to_string(),
        VrApiRsp::ElementNotFoundError(p) => {
            let mut out = "Element ".to_string();
            push_str(&mut out, p.as_str());
            push_str(&mut out, " Not found");
            out
        },
        VrApiRsp::CasFailedError { path, expected, actual } => {
            let mut out = "CAS on ".to_string();
            push_str(&mut out, path.as_str());
            push_str(&mut out, " failed. Expected: ");
            let e = decimal(*expected);
            push_str(&mut out, e.as_str());
            push_str(&mut out, ", Actual: ");
            let a = decimal(*actual);
            push_str(&mut out, a.as_str());
            out
        },
        VrApiRsp::Error { msg } => msg.clone(),
    }
}

/// A request as the client sends it.
#[derive(Debug)]
pub struct ClientRequest {
    pub client_id: u128,
    pub request_num: u64,
    pub op: VrApiReq,
}

/// The client's identity and the number of its last request.
pub struct ClientSession {
    pub client_id: u128,
    pub request_num: u64,
}

impl ClientSession {
    /// A session for client `client_id` that has sent nothing yet.
    pub fn with_id(client_id: u128) -> (r: ClientSession)
        ensures
            r.client_id == client_id,
            r.request_num == 0,
    {
        ClientSession { client_id, request_num: 0 }
    }

    /// A session for the client whose UUID is written in `id`; none when `id`
    /// is not a UUID.
    pub fn new(id: &str) -> (r: Option<ClientSession>)
        ensures
            r is Some <==> uuid_of(id@) is Some,
            r matches Some(s) ==> s.client_id == uuid_of(id@)->0 && s.request_num == 0,
    {
        match parse_uuid(id) {
            Some(v) => Some(ClientSession::with_id(v)),
            None => None,
        }
    }

    /// Numbers `op` as the next request of this client. Nothing is sent once
    /// the request numbers run out.
    pub fn next_request(&mut self, op: VrApiReq) -> (r: Option<ClientRequest>)
        ensures
            final(self).client_id == old(self).client_id,
            old(self).request_num < u64::MAX ==> final(self).request_num == old(self).request_num + 1
                && (r matches Some(q) && q.client_id == old(self).client_id && q.request_num
                == final(self).request_num && q.op == op),
            old(self).request_num == u64::MAX ==> final(self).request_num == u64::MAX && r is None,
    {
        if self.request_num == u64::MAX {
            return None;
        }
        self.request_num = self.request_num + 1;
        Some(ClientRequest { client_id: self.client_id, request_num: self.request_num, op })
    }
}

} // verus!
