use vstd::prelude::*;

verus! {

/// The kind of value a namespace element holds.
#[derive(Clone, Copy, Debug, PartialEq, Eq, Structural)]
pub enum ElementType {
    Binary,
    List,
    Queue,
    UnorderedSet,
}

/// An operation on the namespace, as a client asks for it.
#[derive(Clone, Debug, PartialEq, Eq)]
pub enum VrApiReq {
    Create { path: String, ty: ElementType },
    Put { path: String, data: Vec<u8>, cas_tag: Option<u64> },
    Delete { path: String, cas_tag: Option<u64> },
    Get { path: String, cas: bool },
    List { path: String },
}

/// The outcome of an operation.
#[derive(Clone, Debug, PartialEq, Eq)]
pub enum VrApiRsp {
    Success,
    Timeout,
    Element { data: Vec<u8>, cas_tag: Option<u64> },
    KeyList { keys: Vec<String> },
    ParentNotFoundError,
    ElementAlreadyExistsError,
    ElementNotFoundError(String),
    CasFailedError { path: String, expected: u64, actual: u64 },
    Error { msg: String },
}

/// Mathematical value of a request.
pub ghost enum ReqView {
    Create { path: Seq<char>, ty: ElementType },
    Put { path: Seq<char>, data: Seq<u8>, cas_tag: Option<u64> },
    Delete { path: Seq<char>, cas_tag: Option<u64> },
    Get { path: Seq<char>, cas: bool },
    List { path: Seq<char> },
}

/// Mathematical value of a reply.
pub ghost enum RspView {
    Success,
    Timeout,
    Element { data: Seq<u8>, cas_tag: Option<u64> },
    KeyList { keys: Seq<Seq<char>> },
    ParentNotFoundError,
    ElementAlreadyExistsError,
    ElementNotFoundError(Seq<char>),
    CasFailedError { path: Seq<char>, expected: u64, actual: u64 },
    Error { msg: Seq<char> },
}

pub open spec fn strings_view(v: Seq<String>) -> Seq<Seq<char>> {
    v.map_values(|s: String| s@)
}

impl View for VrApiReq {
    type V = ReqView;

    open spec fn view(&self) -> ReqView {
        match self {
            VrApiReq::Create { path, ty } => ReqView::Create { path: path@, ty: *ty },
            VrApiReq::Put { path, data, cas_tag } => ReqView::Put {
                path: path@,
                data: data@,
                cas_tag: *cas_tag,
            },
            VrApiReq::Delete { path, cas_tag } => ReqView::Delete { path: path@, cas_tag: *cas_tag },
            VrApiReq::Get { path, cas } => ReqView::Get { path: path@, cas: *cas },
            VrApiReq::List { path } => ReqView::List { path: path@ },
        }
    }
}

impl View for VrApiRsp {
    type V = RspView;

    open spec fn view(&self) -> RspView {
        match self {
            VrApiRsp::Success => RspView::Success,
            VrApiRsp::Timeout => RspView::Timeout,
            VrApiRsp::Element { data, cas_tag } => RspView::Element { data: data@, cas_tag: *cas_tag },
            VrApiRsp::KeyList { keys } => RspView::KeyList { keys: strings_view(keys@) },
            VrApiRsp::ParentNotFoundError => RspView::ParentNotFoundError,
            VrApiRsp::ElementAlreadyExistsError => RspView::ElementAlreadyExistsError,
            VrApiRsp::ElementNotFoundError(p) => RspView::ElementNotFoundError(p@),
            VrApiRsp::CasFailedError { path, expected, actual } => RspView::CasFailedError {
                path: path@,
                expected: *expected,
                actual: *actual,
            },
            VrApiRsp::Error { msg } => RspView::Error { msg: msg@ },
        }
    }
}

pub fn copy_bytes(v: &Vec<u8>) -> (r: Vec<u8>)
    ensures
        r@ == v@,
{
    let mut r: Vec<u8> = Vec::new();
    let mut i: usize = 0;
    while i < v.len()
        invariant
            i <= v.len(),
            r@ == v@.take(i as int),
        decreases v.len() - i,
    {
        r.push(v[i]);
        i = i + 1;
        assert(r@ =~= v@.take(i as int));
    }
    assert(r@ =~= v@);
    r
}

pub fn copy_strings(v: &Vec<String>) -> (r: Vec<String>)
    ensures
        strings_view(r@) == strings_view(v@),
{
    let mut r: Vec<String> = Vec::new();
    let mut i: usize = 0;
    while i < v.len()
        invariant
            i <= v.len(),
            r@.len() == i,
            forall|j: int| 0 <= j < i ==> #[trigger] r@[j]@ == v@[j]@,
        decreases v.len() - i,
    {
        let s = v[i].clone();
        r.push(s);
        i = i + 1;
    }
    assert(strings_view(r@) =~= strings_view(v@));
    r
}

impl VrApiReq {
    /// A copy of the request with the same value.
    pub fn duplicate(&self) -> (r: VrApiReq)
        ensures
            r@ == self@,
    {
        match self {
            VrApiReq::Create { path, ty } => VrApiReq::Create { path: path.clone(), ty: *ty },
            VrApiReq::Put { path, data, cas_tag } => VrApiReq::Put {
                path: path.clone(),
                data: copy_bytes(data),
                cas_tag: *cas_tag,
            },
            VrApiReq::Delete { path, cas_tag } => VrApiReq::Delete {
                path: path.clone(),
                cas_tag: *cas_tag,
            },
            VrApiReq::Get { path, cas } => VrApiReq::Get { path: path.clone(), cas: *cas },
            VrApiReq::List { path } => VrApiReq::List { path: path.clone() },
        }
    }
}

impl VrApiRsp {
    /// A copy of the reply with the same value.
    pub fn duplicate(&self) -> (r: VrApiRsp)
        ensures
            r@ == self@,
    {
        match self {
            VrApiRsp::Success => VrApiRsp::Success,
            VrApiRsp::Timeout => VrApiRsp::Timeout,
            VrApiRsp::Element { data, cas_tag } => VrApiRsp::Element {
                data: copy_bytes(data),
                cas_tag: *cas_tag,
            },
            VrApiRsp::KeyList { keys } => VrApiRsp::KeyList { keys: copy_strings(keys) },
            VrApiRsp::ParentNotFoundError => VrApiRsp::ParentNotFoundError,
            VrApiRsp::ElementAlreadyExistsError => VrApiRsp::ElementAlreadyExistsError,
            VrApiRsp::ElementNotFoundError(p) => VrApiRsp::ElementNotFoundError(p.clone()),
            VrApiRsp::CasFailedError { path, expected, actual } => VrApiRsp::CasFailedError {
                path: path.clone(),
                expected: *expected,
                actual: *actual,
            },
            VrApiRsp::Error { msg } => VrApiRsp::Error { msg: msg.clone() },
        }
    }
}

} // verus!
