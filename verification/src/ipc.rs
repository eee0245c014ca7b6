//! Incremental framing of the reply byte stream.
//!
//! The stream carries back-to-back self-delimiting encoded values with no
//! length prefix or separator. A [`StreamDecoder`] holds the bytes read so
//! far but not yet consumed; each call to [`StreamDecoder::feed`] appends a
//! newly read chunk and then greedily decodes as many complete messages as
//! the buffer holds. One decode attempt reports one of three outcomes —
//! a complete message plus the bytes it consumed, a need for more data, or
//! an unrecoverable decode error — and that three-way distinction drives
//! the loop: consume and retry, stop and wait, or fail the connection.

use vstd::prelude::*;

use crate::connection::Connection;
use crate::errors::ConnectionError;
use crate::rpc_reqresp::Reply;
use crate::rpc_reqresp::ReplyModel;
use crate::rpc_reqresp::RpcId;
use crate::rpc_reqresp::ReplyPayload;
use alloy_json_rpc::Id;
use alloy_json_rpc::Response;
use alloy_json_rpc::ResponsePayload;

verus! {

/// The outcome of one decode attempt on the front of the buffer.
pub enum DecodeStep {
    /// A complete message, and how many leading bytes it consumed.
    Msg {
        /// The decoded message.
        reply: Reply,
        /// How many leading bytes of the buffer the decode consumed.
        consumed: usize,
    },
    /// The buffer holds no complete message yet; `consumed` leading bytes
    /// (skipped whitespace) may be dropped before waiting for more data.
    Incomplete {
        /// Leading bytes that can be dropped before reading further.
        consumed: usize,
    },
    /// The bytes are not a valid message and are not merely incomplete.
    Fatal {
        /// The decoder's description of the fault.
        message: String,
    },
}

/// The mathematical form of a [`DecodeStep`]; the fault description of the
/// fatal case plays no role in any contract and is left out.
pub enum DecodeModel {
    /// A complete message and the count of bytes it consumed.
    Msg {
        /// The decoded message.
        reply: ReplyModel,
        /// How many leading bytes of the buffer the decode consumed.
        consumed: int,
    },
    /// No complete message yet; `consumed` leading bytes may be dropped.
    Incomplete {
        /// Leading bytes that can be dropped before reading further.
        consumed: int,
    },
    /// The bytes are not a valid message and are not merely incomplete.
    Fatal,
}

impl View for DecodeStep {
    type V = DecodeModel;

    open spec fn view(&self) -> DecodeModel {
        match self {
            DecodeStep::Msg { reply, consumed } => (DecodeModel::Msg {
                reply: reply@,
                consumed: *consumed as int,
            }),
            DecodeStep::Incomplete { consumed } => (DecodeModel::Incomplete {
                consumed: *consumed as int,
            }),
            DecodeStep::Fatal { .. } => DecodeModel::Fatal,
        }
    }
}

/// What one decode attempt reports for a given buffer. The outcome is a
/// pure function of the bytes; nothing here states which bytes form a
/// valid message, so all reasoning about framing goes through this name.
pub uninterp spec fn decode_step_of(bytes: Seq<u8>) -> DecodeModel;

#[verifier::external_type_specification]
#[verifier::external_body]
pub struct ExRawValue(serde_json::value::RawValue);

#[verifier::external_type_specification]
#[verifier::external_body]
#[verifier::reject_recursive_types(Payload)]
#[verifier::reject_recursive_types(ErrData)]
pub struct ExResponse<Payload, ErrData>(Response<Payload, ErrData>);

/// Relies on the public fields of `alloy_json_rpc::Response`: the
/// identifier and the payload are carried over variant by variant, a
/// `RawValue` body as its text, an `ErrorPayload` as its code and its
/// message. The relation to the decoded bytes is stated on
/// [`decode_step`], whose body is this conversion's only caller.
#[verifier::external_body]
fn reply_from_response(resp: Response) -> Reply {
    let id = match resp.id {
        Id::Number(n) => RpcId::Num(n),
        Id::String(s) => RpcId::Str(s),
        Id::None => RpcId::Null,
    };
    let payload = match resp.payload {
        ResponsePayload::Success(v) => ReplyPayload::Success(v.get().to_string()),
        ResponsePayload::Failure(e) => ReplyPayload::Failure(e.code, e.message.into_owned()),
    };
    Reply { id, payload }
}

/// Relies on `serde_json::Deserializer::from_slice(..).into_iter` over
/// `alloy_json_rpc::Response`: one streaming decode attempt at the front
/// of the buffer. `byte_offset` reports how many bytes a successful decode
/// consumed (at least one, at most the buffer); on an error it reports
/// the leading whitespace skipped before the attempt. Only an error that
/// means the input ended inside a value (`is_eof`) is incomplete; any
/// other error — ill-formed bytes, or a well-formed value that is not a
/// message — is not cured by more data and is fatal.
#[verifier::external_body]
fn decode_step(buf: &Vec<u8>) -> (r: DecodeStep)
    ensures
        r@ == decode_step_of(buf@),
        r matches DecodeStep::Msg { consumed, .. } ==> 1 <= consumed <= buf@.len(),
        r matches DecodeStep::Incomplete { consumed } ==> consumed <= buf@.len(),
{
    let mut it = serde_json::Deserializer::from_slice(buf.as_slice()).into_iter::<Response>();
    match it.next() {
        None => DecodeStep::Incomplete { consumed: it.byte_offset() },
        Some(Err(e)) if e.is_eof() => DecodeStep::Incomplete { consumed: it.byte_offset() },
        Some(Err(e)) => DecodeStep::Fatal { message: e.to_string() },
        Some(Ok(resp)) => DecodeStep::Msg {
            reply: reply_from_response(resp),
            consumed: it.byte_offset(),
        },
    }
}

/// What greedily decoding a buffer yields: the messages in order, the
/// bytes left over, and whether a fatal decode error was hit.
pub struct DrainModel {
    /// The decoded messages, in buffer order.
    pub msgs: Seq<ReplyModel>,
    /// The bytes left undecoded.
    pub rest: Seq<u8>,
    /// Whether decoding hit an unrecoverable error.
    pub fatal: bool,
}

/// Greedy decoding, as a function of the buffer: decode at the front;
/// on a message, drop what it consumed and continue on the remainder; on
/// incomplete data, drop only the skipped leading bytes and stop; on a
/// fatal error, stop with the fatal flag set. The guards on `consumed`
/// make the recursion total; the decoder itself never reports a count
/// outside them.
pub open spec fn drain_spec(bytes: Seq<u8>) -> DrainModel
    decreases bytes.len(),
{
    if bytes.len() == 0 {
        DrainModel { msgs: Seq::empty(), rest: bytes, fatal: false }
    } else {
        match decode_step_of(bytes) {
            DecodeModel::Msg { reply, consumed } => {
                if 1 <= consumed <= bytes.len() {
                    let rec = drain_spec(bytes.skip(consumed));
                    DrainModel { msgs: seq![reply] + rec.msgs, rest: rec.rest, fatal: rec.fatal }
                } else {
                    DrainModel { msgs: Seq::empty(), rest: bytes, fatal: false }
                }
            },
            DecodeModel::Incomplete { consumed } => {
                if 0 <= consumed <= bytes.len() {
                    DrainModel { msgs: Seq::empty(), rest: bytes.skip(consumed), fatal: false }
                } else {
                    DrainModel { msgs: Seq::empty(), rest: bytes, fatal: false }
                }
            },
            DecodeModel::Fatal => DrainModel { msgs: Seq::empty(), rest: bytes, fatal: true },
        }
    }
}

/// The views of a sequence of decoded messages, in order.
pub open spec fn reply_views(rs: Seq<Reply>) -> Seq<ReplyModel> {
    rs.map_values(|m: Reply| m@)
}

/// The streaming decoder: the bytes read from the stream but not yet
/// consumed by a decoded message.
pub struct StreamDecoder {
    buf: Vec<u8>,
}

impl View for StreamDecoder {
    type V = Seq<u8>;

    closed spec fn view(&self) -> Seq<u8> {
        self.buf@
    }
}

impl StreamDecoder {
    /// A decoder with an empty buffer.
    pub fn new() -> (d: StreamDecoder)
        ensures
            d@ == Seq::<u8>::empty(),
    {
        StreamDecoder { buf: Vec::new() }
    }

    /// Appends one newly read chunk and decodes as many complete messages
    /// as the buffer now holds: exactly [`drain_spec`] applied to the old
    /// buffer plus the chunk. The messages decoded before a fatal error
    /// are still handed back beside it, so nothing already framed is lost
    /// when the connection then goes down.
    pub fn feed(&mut self, chunk: &[u8]) -> (r: (Vec<Reply>, Option<ConnectionError>))
        ensures
            ({
                let d = drain_spec(old(self)@ + chunk@);
                &&& reply_views(r.0@) == d.msgs
                &&& final(self)@ == d.rest
                &&& match r.1 {
                    None => !d.fatal,
                    Some(e) => d.fatal && e matches ConnectionError::JsonParseErr(_),
                }
            }),
    {
        self.buf.extend_from_slice(chunk);
        assert(self.buf@ =~= old(self)@ + chunk@);
        let ghost all0: Seq<u8> = old(self)@ + chunk@;

        let mut out: Vec<Reply> = Vec::new();
        let mut failure: Option<ConnectionError> = None;
        let mut stopped = false;
        while !stopped && self.buf.len() > 0
            invariant
                all0 == old(self)@ + chunk@,
                !stopped ==> {
                    &&& failure is None
                    &&& drain_spec(all0).fatal == drain_spec(self.buf@).fatal
                    &&& drain_spec(all0).rest == drain_spec(self.buf@).rest
                    &&& drain_spec(all0).msgs == reply_views(out@) + drain_spec(self.buf@).msgs
                },
                stopped ==> {
                    &&& drain_spec(all0).rest == self.buf@
                    &&& drain_spec(all0).msgs == reply_views(out@)
                    &&& match failure {
                        None => !drain_spec(all0).fatal,
                        Some(e) => drain_spec(all0).fatal && e
                            matches ConnectionError::JsonParseErr(_),
                    }
                },
            decreases (if stopped { 0int } else { 1int }), self.buf@.len(),
        {
            let ghost before: Seq<u8> = self.buf@;
            let ghost out_before: Seq<Reply> = out@;
            match decode_step(&self.buf) {
                DecodeStep::Msg { reply, consumed } => {
                    let ghost reply_m = reply@;
                    out.push(reply);
                    let rest = self.buf.split_off(consumed);
                    self.buf = rest;
                    proof {
                        assert(self.buf@ =~= before.skip(consumed as int));
                        assert(reply_views(out@) =~= reply_views(out_before).push(reply_m));
                        assert(drain_spec(all0).msgs == reply_views(out@) + drain_spec(
                            self.buf@,
                        ).msgs) by {
                            assert(drain_spec(before).msgs == seq![reply_m] + drain_spec(
                                before.skip(consumed as int),
                            ).msgs);
                            assert(reply_views(out_before) + (seq![reply_m] + drain_spec(
                                self.buf@,
                            ).msgs) =~= reply_views(out@) + drain_spec(self.buf@).msgs);
                        };
                    }
                },
                DecodeStep::Incomplete { consumed } => {
                    let rest = self.buf.split_off(consumed);
                    self.buf = rest;
                    stopped = true;
                    proof {
                        assert(self.buf@ =~= before.skip(consumed as int));
                        assert(reply_views(out@) + drain_spec(before).msgs =~= reply_views(
                            out@,
                        ));
                    }
                },
                DecodeStep::Fatal { message } => {
                    failure = Some(ConnectionError::JsonParseErr(message));
                    stopped = true;
                    proof {
                        assert(drain_spec(before).fatal);
                        assert(drain_spec(before).rest == before);
                        assert(reply_views(out@) + drain_spec(before).msgs =~= reply_views(
                            out@,
                        ));
                    }
                },
            }
        }
        proof {
            if !stopped {
                assert(self.buf@.len() == 0);
                assert(drain_spec(self.buf@).rest =~= self.buf@);
                assert(reply_views(out@) + drain_spec(self.buf@).msgs =~= reply_views(out@));
            }
        }
        (out, failure)
    }
}

/// The bytes of all chunks, joined in order.
pub open spec fn concat_chunks(chunks: Seq<Seq<u8>>) -> Seq<u8>
    decreases chunks.len(),
{
    if chunks.len() == 0 {
        Seq::empty()
    } else {
        chunks[0] + concat_chunks(chunks.drop_first())
    }
}

/// What feeding the chunks one by one into a decoder whose buffer starts
/// as `buf` yields: each chunk is appended and greedily drained, exactly as
/// [`StreamDecoder::feed`] promises, and a fatal error stops the run.
pub open spec fn feed_all_spec(buf: Seq<u8>, chunks: Seq<Seq<u8>>) -> DrainModel
    decreases chunks.len(),
{
    if chunks.len() == 0 {
        DrainModel { msgs: Seq::empty(), rest: buf, fatal: false }
    } else {
        let d = drain_spec(buf + chunks[0]);
        if d.fatal {
            d
        } else {
            let rec = feed_all_spec(d.rest, chunks.drop_first());
            DrainModel { msgs: d.msgs + rec.msgs, rest: rec.rest, fatal: rec.fatal }
        }
    }
}

proof fn lemma_append_is_prefix(a: Seq<u8>, b: Seq<u8>, whole: Seq<u8>)
    requires
        a + b == whole,
    ensures
        a == whole.take(a.len() as int),
{
    assert(a =~= whole.take(a.len() as int));
}

proof fn lemma_drain_single(whole: Seq<u8>, reply: ReplyModel)
    requires
        whole.len() > 0,
        decode_step_of(whole) == (DecodeModel::Msg { reply, consumed: whole.len() as int }),
    ensures
        drain_spec(whole) == (DrainModel {
            msgs: seq![reply],
            rest: Seq::<u8>::empty(),
            fatal: false,
        }),
{
    assert(whole.skip(whole.len() as int) =~= Seq::<u8>::empty());
    assert(drain_spec(Seq::<u8>::empty()) == (DrainModel {
        msgs: Seq::<ReplyModel>::empty(),
        rest: Seq::<u8>::empty(),
        fatal: false,
    }));
    assert(seq![reply] + Seq::<ReplyModel>::empty() =~= seq![reply]);
}

proof fn lemma_feed_all_nothing(chunks: Seq<Seq<u8>>)
    requires
        concat_chunks(chunks).len() == 0,
    ensures
        feed_all_spec(Seq::empty(), chunks) == (DrainModel {
            msgs: Seq::<ReplyModel>::empty(),
            rest: Seq::<u8>::empty(),
            fatal: false,
        }),
    decreases chunks.len(),
{
    if chunks.len() == 0 {
    } else {
        assert(chunks[0].len() == 0);
        assert(Seq::<u8>::empty() + chunks[0] =~= Seq::<u8>::empty());
        lemma_feed_all_nothing(chunks.drop_first());
        assert(Seq::<ReplyModel>::empty() + Seq::<ReplyModel>::empty()
            =~= Seq::<ReplyModel>::empty());
    }
}

proof fn lemma_feed_prefix(chunks: Seq<Seq<u8>>, whole: Seq<u8>, reply: ReplyModel, j: int)
    requires
        0 <= j < whole.len(),
        whole.take(j) + concat_chunks(chunks) == whole,
        decode_step_of(whole) == (DecodeModel::Msg { reply, consumed: whole.len() as int }),
        forall|i: int|
            0 <= i < whole.len() ==> decode_step_of(#[trigger] whole.take(i))
                == (DecodeModel::Incomplete { consumed: 0 }),
    ensures
        feed_all_spec(whole.take(j), chunks) == (DrainModel {
            msgs: seq![reply],
            rest: Seq::<u8>::empty(),
            fatal: false,
        }),
    decreases chunks.len(),
{
    let pre = whole.take(j);
    if chunks.len() == 0 {
        assert(pre + concat_chunks(chunks) =~= pre);
        assert(false);
    } else {
        let c0 = chunks[0];
        let b = pre + c0;
        let rest = chunks.drop_first();
        assert(b + concat_chunks(rest) == whole) by {
            assert((pre + c0) + concat_chunks(rest) =~= pre + (c0 + concat_chunks(rest)));
        };
        let k = j + c0.len() as int;
        lemma_append_is_prefix(b, concat_chunks(rest), whole);
        assert(b == whole.take(k));
        if k < whole.len() {
            assert(decode_step_of(b) == (DecodeModel::Incomplete { consumed: 0 }));
            assert(drain_spec(b) == (DrainModel {
                msgs: Seq::<ReplyModel>::empty(),
                rest: b,
                fatal: false,
            })) by {
                if b.len() > 0 {
                    assert(b.skip(0) =~= b);
                }
            };
            lemma_feed_prefix(rest, whole, reply, k);
            assert(Seq::<ReplyModel>::empty() + seq![reply] =~= seq![reply]);
        } else {
            assert(k == whole.len());
            assert(b =~= whole);
            lemma_drain_single(whole, reply);
            assert(concat_chunks(rest).len() == 0);
            lemma_feed_all_nothing(rest);
            assert(seq![reply] + Seq::<ReplyModel>::empty() =~= seq![reply]);
        }
    }
}

/// Stream framing: feeding the decoder one complete message split across
/// arbitrarily many chunks — including a split in the middle of the
/// encoding — yields the same single decoded message, with nothing left
/// over, as feeding it in one piece. The hypotheses say what makes `whole`
/// one complete message to the decoder: decoding it consumes exactly all
/// of it, and every proper prefix of it is incomplete and consumes
/// nothing.
pub proof fn lemma_chunked_decode_equals_whole(
    chunks: Seq<Seq<u8>>,
    whole: Seq<u8>,
    reply: ReplyModel,
)
    requires
        concat_chunks(chunks) == whole,
        whole.len() > 0,
        decode_step_of(whole) == (DecodeModel::Msg { reply, consumed: whole.len() as int }),
        forall|i: int|
            0 <= i < whole.len() ==> decode_step_of(#[trigger] whole.take(i))
                == (DecodeModel::Incomplete { consumed: 0 }),
    ensures
        drain_spec(whole) == (DrainModel {
            msgs: seq![reply],
            rest: Seq::<u8>::empty(),
            fatal: false,
        }),
        feed_all_spec(Seq::empty(), chunks) == drain_spec(whole),
{
    lemma_drain_single(whole, reply);
    assert(whole.take(0) =~= Seq::<u8>::empty());
    lemma_feed_prefix(chunks, whole, reply, 0);
}

/// What makes `whole` a stream of back-to-back complete messages to the
/// decoder, cut at `bounds` into one segment per reply: every cut sits
/// inside the stream, consecutive cuts are strictly apart, and each
/// segment, read from its own start, is incomplete (consuming nothing)
/// while truncated anywhere inside it, and decodes as its reply —
/// consuming exactly the segment — once its end is reached, with any
/// amount of the stream's later bytes standing behind it.
pub open spec fn stream_cut_ok(whole: Seq<u8>, bounds: Seq<int>, replies: Seq<ReplyModel>) -> bool {
    &&& bounds.len() == replies.len() + 1
    &&& bounds[0] == 0
    &&& bounds[bounds.len() - 1] == whole.len()
    &&& forall|i: int| 0 <= i < bounds.len() ==> 0 <= #[trigger] bounds[i] <= whole.len()
    &&& forall|i: int| 0 <= i < replies.len() ==> #[trigger] bounds[i] < bounds[i + 1]
    &&& forall|i: int, c: int|
        0 <= i < replies.len() && bounds[i + 1] <= c <= whole.len()
            ==> #[trigger] decode_step_of(whole.subrange(bounds[i], c)) == (DecodeModel::Msg {
                reply: replies[i],
                consumed: bounds[i + 1] - bounds[i],
            })
    &&& forall|i: int, c: int|
        0 <= i < replies.len() && bounds[i] < c < bounds[i + 1]
            ==> #[trigger] decode_step_of(whole.subrange(bounds[i], c))
                == (DecodeModel::Incomplete { consumed: 0 })
}

proof fn lemma_feed_stream_tail(
    whole: Seq<u8>,
    bounds: Seq<int>,
    replies: Seq<ReplyModel>,
    i: int,
    j: int,
    chunks: Seq<Seq<u8>>,
)
    requires
        stream_cut_ok(whole, bounds, replies),
        0 <= i <= replies.len(),
        bounds[i] <= j <= whole.len(),
        i < replies.len() ==> j < bounds[i + 1],
        i == replies.len() ==> j == whole.len(),
        whole.subrange(bounds[i], j) + concat_chunks(chunks) == whole.skip(bounds[i]),
    ensures
        feed_all_spec(whole.subrange(bounds[i], j), chunks) == (DrainModel {
            msgs: replies.skip(i),
            rest: Seq::<u8>::empty(),
            fatal: false,
        }),
    decreases replies.len() - i, chunks.len(),
{
    let k = replies.len() as int;
    let buf = whole.subrange(bounds[i], j);
    if i == k {
        assert(buf =~= Seq::<u8>::empty());
        assert(whole.skip(bounds[i]) =~= Seq::<u8>::empty());
        assert(concat_chunks(chunks).len() == 0) by {
            assert(buf + concat_chunks(chunks) =~= concat_chunks(chunks));
        };
        lemma_feed_all_nothing(chunks);
        assert(replies.skip(i) =~= Seq::<ReplyModel>::empty());
    } else if chunks.len() == 0 {
        assert(buf + concat_chunks(chunks) =~= buf);
        assert(whole.skip(bounds[i]).len() == whole.len() - bounds[i]);
        assert(false);
    } else {
        let c0 = chunks[0];
        let rest = chunks.drop_first();
        let j1 = j + c0.len() as int;
        let b = buf + c0;
        assert(b + concat_chunks(rest) == whole.skip(bounds[i])) by {
            assert((buf + c0) + concat_chunks(rest) =~= buf + (c0 + concat_chunks(rest)));
        };
        assert(j1 <= whole.len()) by {
            assert((b + concat_chunks(rest)).len() == whole.skip(bounds[i]).len());
        };
        assert(b == whole.subrange(bounds[i], j1)) by {
            assert forall|x: int| 0 <= x < b.len() implies b[x] == whole.subrange(
                bounds[i],
                j1,
            )[x] by {
                assert((b + concat_chunks(rest))[x] == b[x]);
                assert(whole.skip(bounds[i])[x] == whole[bounds[i] + x]);
            };
            assert(b =~= whole.subrange(bounds[i], j1));
        };
        if j1 < bounds[i + 1] {
            assert(drain_spec(b) == (DrainModel {
                msgs: Seq::<ReplyModel>::empty(),
                rest: b,
                fatal: false,
            })) by {
                if b.len() > 0 {
                    assert(bounds[i] < j1);
                    assert(decode_step_of(whole.subrange(bounds[i], j1))
                        == (DecodeModel::Incomplete { consumed: 0 }));
                    assert(b.skip(0) =~= b);
                }
            };
            lemma_feed_stream_tail(whole, bounds, replies, i, j1, rest);
            assert(Seq::<ReplyModel>::empty() + replies.skip(i) =~= replies.skip(i));
        } else {
            let delta = bounds[i + 1] - bounds[i];
            assert(decode_step_of(whole.subrange(bounds[i], j1)) == (DecodeModel::Msg {
                reply: replies[i],
                consumed: delta,
            }));
            assert(1 <= delta <= b.len());
            let tail = whole.subrange(bounds[i + 1], j1);
            assert(b.skip(delta) =~= tail);
            assert(whole.subrange(bounds[i + 1], bounds[i + 1]) =~= Seq::<u8>::empty());
            assert((seq![tail] + rest).drop_first() =~= rest);
            assert(concat_chunks(seq![tail] + rest) == tail + concat_chunks(rest)) by {
                assert((seq![tail] + rest)[0] == tail);
            };
            assert(whole.subrange(bounds[i + 1], bounds[i + 1]) + concat_chunks(
                seq![tail] + rest,
            ) == whole.skip(bounds[i + 1])) by {
                assert forall|x: int| 0 <= x < whole.len() - bounds[i + 1] implies (tail
                    + concat_chunks(rest))[x] == whole.skip(bounds[i + 1])[x] by {
                    if x < j1 - bounds[i + 1] {
                        assert(tail[x] == whole[bounds[i + 1] + x]);
                    } else {
                        assert((tail + concat_chunks(rest))[x] == concat_chunks(rest)[x - (j1
                            - bounds[i + 1])]);
                        assert((b + concat_chunks(rest))[(x + delta)] == concat_chunks(
                            rest,
                        )[x + delta - b.len()]);
                        assert(whole.skip(bounds[i])[x + delta] == whole[bounds[i + 1] + x]);
                    }
                };
                assert(whole.subrange(bounds[i + 1], bounds[i + 1]) + concat_chunks(
                    seq![tail] + rest,
                ) =~= whole.skip(bounds[i + 1]));
            };
            lemma_feed_stream_tail(
                whole,
                bounds,
                replies,
                i + 1,
                bounds[i + 1],
                seq![tail] + rest,
            );
            let d1 = drain_spec(tail);
            assert(Seq::<u8>::empty() + tail =~= tail);
            let continued = feed_all_spec(
                whole.subrange(bounds[i + 1], bounds[i + 1]),
                seq![tail] + rest,
            );
            assert(!d1.fatal) by {
                if d1.fatal {
                    assert(continued == d1);
                }
            };
            let rec = feed_all_spec(d1.rest, rest);
            assert(continued == (DrainModel {
                msgs: d1.msgs + rec.msgs,
                rest: rec.rest,
                fatal: rec.fatal,
            }));
            assert(drain_spec(b) == (DrainModel {
                msgs: seq![replies[i]] + d1.msgs,
                rest: d1.rest,
                fatal: d1.fatal,
            }));
            assert((seq![replies[i]] + d1.msgs) + rec.msgs =~= seq![replies[i]] + (d1.msgs
                + rec.msgs));
            assert(seq![replies[i]] + replies.skip(i + 1) =~= replies.skip(i));
        }
    }
}

/// Stream framing over a whole stream of messages: feeding any number of
/// back-to-back complete messages split across arbitrarily many chunks —
/// splits in the middle of any encoding included — yields exactly the
/// stream's messages, in order and each once, with nothing left over,
/// the same as feeding the stream in one piece. [`stream_cut_ok`] states
/// the hypotheses: what it means for `whole` to be such a stream, cut at
/// `bounds`. This extends [`lemma_chunked_decode_equals_whole`], which is
/// the one-message case.
pub proof fn lemma_chunked_stream_decode_equals_whole(
    chunks: Seq<Seq<u8>>,
    whole: Seq<u8>,
    bounds: Seq<int>,
    replies: Seq<ReplyModel>,
)
    requires
        concat_chunks(chunks) == whole,
        replies.len() >= 1,
        stream_cut_ok(whole, bounds, replies),
    ensures
        feed_all_spec(Seq::empty(), chunks) == (DrainModel {
            msgs: replies,
            rest: Seq::<u8>::empty(),
            fatal: false,
        }),
        drain_spec(whole) == (DrainModel {
            msgs: replies,
            rest: Seq::<u8>::empty(),
            fatal: false,
        }),
{
    assert(whole.subrange(0, 0) =~= Seq::<u8>::empty());
    assert(whole.skip(0) =~= whole);
    assert(whole.subrange(0, 0) + concat_chunks(chunks) =~= whole);
    lemma_feed_stream_tail(whole, bounds, replies, 0, 0, chunks);
    assert(replies.skip(0) =~= replies);

    assert(concat_chunks(seq![whole]) == whole) by {
        assert(seq![whole].drop_first() =~= Seq::<Seq<u8>>::empty());
        assert(whole + concat_chunks(Seq::<Seq<u8>>::empty()) =~= whole);
    };
    assert(whole.subrange(0, 0) + concat_chunks(seq![whole]) =~= whole);
    lemma_feed_stream_tail(whole, bounds, replies, 0, 0, seq![whole]);
    let once = feed_all_spec(whole.subrange(0, 0), seq![whole]);
    let d = drain_spec(whole);
    assert(whole.subrange(0, 0) + whole =~= whole);
    assert(!d.fatal) by {
        if d.fatal {
            assert(once == d);
        }
    };
    assert(seq![whole].drop_first() =~= Seq::<Seq<u8>>::empty());
    let rec = feed_all_spec(d.rest, Seq::<Seq<u8>>::empty());
    assert(rec == (DrainModel { msgs: Seq::<ReplyModel>::empty(), rest: d.rest, fatal: false }));
    assert(once == (DrainModel { msgs: d.msgs + rec.msgs, rest: rec.rest, fatal: rec.fatal }));
    assert(d.msgs + Seq::<ReplyModel>::empty() =~= d.msgs);
    assert(d.msgs == replies);
    assert(d.rest == Seq::<u8>::empty());
}

/// Hands each decoded reply inbound through the connection, in order,
/// stopping at the first bridge failure; this is what the transport's read
/// loop does with the yield of one [`StreamDecoder::feed`].
pub fn deliver_replies<T: Connection>(conn: &T, replies: Vec<Reply>) -> Result<(), ConnectionError> {
    let mut i: usize = 0;
    let n = replies.len();
    while i < n
        invariant
            i <= n,
            n == replies@.len(),
        decreases n - i,
    {
        let r = replies[i].clone();
        match conn.recv(Some(r)) {
            Ok(()) => {},
            Err(e) => {
                return Err(e);
            },
        }
        i = i + 1;
    }
    Ok(())
}

} // verus!
