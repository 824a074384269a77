use vstd::prelude::*;

verus! {

/// A request method, from the fixed set the router understands.
#[derive(Clone, Copy, PartialEq, Eq, Structural, Debug)]
pub enum Method {
    Get,
    Post,
    Put,
    Delete,
}

/// A parsed request as the transport layer hands it over: the core makes no
/// assumption about how the bytes arrived.
pub struct Request {
    pub method: Method,
    pub path: Vec<u8>,
    pub query: Vec<u8>,
    pub body: Vec<u8>,
}

/// The mathematical model of a `Request`.
#[verifier::ext_equal]
pub struct ReqModel {
    pub method: Method,
    pub path: Seq<u8>,
    pub query: Seq<u8>,
    pub body: Seq<u8>,
}

impl View for Request {
    type V = ReqModel;

    open spec fn view(&self) -> ReqModel {
        ReqModel { method: self.method, path: self.path@, query: self.query@, body: self.body@ }
    }
}

/// A name bound to a byte-string value: one bound dynamic path segment, or
/// one query or body field.
pub struct Binding {
    pub name: Vec<u8>,
    pub value: Vec<u8>,
}

/// The mathematical model of a `Binding`.
#[verifier::ext_equal]
pub struct BindingModel {
    pub name: Seq<u8>,
    pub value: Seq<u8>,
}

impl View for Binding {
    type V = BindingModel;

    open spec fn view(&self) -> BindingModel {
        BindingModel { name: self.name@, value: self.value@ }
    }
}

impl DeepView for Binding {
    type V = BindingModel;

    open spec fn deep_view(&self) -> BindingModel {
        self.view()
    }
}

/// The content type a response declares.
#[derive(Clone, Copy, PartialEq, Eq, Structural, Debug)]
pub enum ContentType {
    TextPlain,
    Json,
}

/// A response body: either fully buffered, or a finite ordered sequence of
/// chunks to be delivered incrementally.
pub enum ResponseBody {
    Fixed(Vec<u8>),
    Streaming(Vec<Vec<u8>>),
}

/// The mathematical model of a `ResponseBody`.
#[verifier::ext_equal]
pub enum BodyModel {
    Fixed(Seq<u8>),
    Streaming(Seq<Seq<u8>>),
}

impl View for ResponseBody {
    type V = BodyModel;

    open spec fn view(&self) -> BodyModel {
        match self {
            ResponseBody::Fixed(b) => BodyModel::Fixed(b@),
            ResponseBody::Streaming(cs) => BodyModel::Streaming(cs.deep_view()),
        }
    }
}

/// What the dispatcher hands back to the transport layer: status, content
/// type, a body, and how long the transport should cooperatively suspend
/// before delivering (zero for an immediate response).
pub struct ResponseDescriptor {
    pub status: u16,
    pub content_type: ContentType,
    pub delay_secs: u64,
    pub body: ResponseBody,
}

/// The mathematical model of a `ResponseDescriptor`.
#[verifier::ext_equal]
pub struct RespModel {
    pub status: u16,
    pub content_type: ContentType,
    pub delay_secs: u64,
    pub body: BodyModel,
}

impl View for ResponseDescriptor {
    type V = RespModel;

    open spec fn view(&self) -> RespModel {
        RespModel {
            status: self.status,
            content_type: self.content_type,
            delay_secs: self.delay_secs,
            body: self.body@,
        }
    }
}

/// A buffered plain-text response.
pub fn text_response(status: u16, body: Vec<u8>) -> (r: ResponseDescriptor)
    ensures
        r@ == (RespModel {
            status,
            content_type: ContentType::TextPlain,
            delay_secs: 0,
            body: BodyModel::Fixed(body@),
        }),
{
    ResponseDescriptor {
        status,
        content_type: ContentType::TextPlain,
        delay_secs: 0,
        body: ResponseBody::Fixed(body),
    }
}

/// A streaming body being consumed: `pos` chunks have been delivered.
pub struct ChunkStream {
    pub chunks: Vec<Vec<u8>>,
    pub pos: usize,
}

impl ChunkStream {
    pub open spec fn wf(self) -> bool {
        self.pos <= self.chunks.len()
    }

    /// Starts consuming the given chunks.
    pub fn new(chunks: Vec<Vec<u8>>) -> (r: ChunkStream)
        ensures
            r.wf(),
            r.chunks.deep_view() == chunks.deep_view(),
            r.pos == 0,
    {
        ChunkStream { chunks, pos: 0 }
    }

    /// Delivers the next chunk in production order, or `None` once every
    /// declared chunk has been delivered.
    pub fn next_chunk(&mut self) -> (r: Option<Vec<u8>>)
        requires
            old(self).wf(),
        ensures
            final(self).wf(),
            final(self).chunks.deep_view() == old(self).chunks.deep_view(),
            old(self).pos < old(self).chunks.len() ==> {
                &&& final(self).pos == old(self).pos + 1
                &&& r matches Some(c) && c.deep_view() == old(self).chunks.deep_view()[old(
                    self,
                ).pos as int]
            },
            old(self).pos >= old(self).chunks.len() ==> {
                &&& final(self).pos == old(self).pos
                &&& r is None
            },
    {
        if self.pos < self.chunks.len() {
            let c = crate::bytes::clone_bytes(&self.chunks[self.pos]);
            self.pos = self.pos + 1;
            Some(c)
        } else {
            None
        }
    }

    /// Drains the stream: every remaining chunk comes out, in production
    /// order, and the drain terminates because the sequence is finite.
    pub fn deliver_all(&mut self) -> (r: Vec<Vec<u8>>)
        requires
            old(self).wf(),
        ensures
            final(self).wf(),
            final(self).pos == final(self).chunks.len(),
            r.deep_view() == old(self).chunks.deep_view().skip(old(self).pos as int),
    {
        let mut out: Vec<Vec<u8>> = Vec::new();
        proof {
            assert(out.deep_view() =~~= self.chunks.deep_view().subrange(
                self.pos as int,
                self.pos as int,
            ));
        }
        while self.pos < self.chunks.len()
            invariant
                self.wf(),
                self.chunks.deep_view() == old(self).chunks.deep_view(),
                old(self).pos <= self.pos,
                out.deep_view() == self.chunks.deep_view().subrange(
                    old(self).pos as int,
                    self.pos as int,
                ),
            decreases self.chunks.len() - self.pos,
        {
            let ghost prev = self.pos as int;
            let ghost out_dv = out.deep_view();
            let c = crate::bytes::clone_bytes(&self.chunks[self.pos]);
            proof {
                assert(c.deep_view() =~= self.chunks.deep_view()[prev]);
            }
            out.push(c);
            self.pos = self.pos + 1;
            proof {
                assert(out.deep_view() =~~= out_dv.push(self.chunks.deep_view()[prev]));
                assert(out.deep_view() =~~= self.chunks.deep_view().subrange(
                    old(self).pos as int,
                    prev + 1,
                ));
            }
        }
        proof {
            assert(out.deep_view() =~~= old(self).chunks.deep_view().skip(old(self).pos as int));
        }
        out
    }
}

} // verus!
