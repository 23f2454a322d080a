//! The Timber HTTP API: what it returns and how it is asked.
use std::collections::HashMap;
use vstd::prelude::*;
use crate::ndjson;
use crate::payload;
use crate::text;

verus! {

/// The identifier of a topic.
#[derive(Debug, Clone, PartialEq, Hash)]
pub struct TopicId(pub String);

/// What the API says of a topic.
#[derive(Debug, Clone)]
pub struct TopicInfo {
    pub id: TopicId,
    pub name: String,
    pub partition_count: usize,
    pub retention_seconds: u64,
}

/// What the API says of a partition.
#[derive(Debug, Clone)]
pub struct PartitionInfo {
    pub id: usize,
    pub high_watermark: usize,
}

/// What comes with a message besides its payload.
#[derive(Debug, Clone)]
pub struct MessageMetadata {
    pub timestamp: i64,
    pub headers: HashMap<String, String>,
}

/// A message of a topic.
#[derive(Debug, Clone)]
pub struct Message {
    pub partition: usize,
    pub offset: usize,
    pub payload: Vec<u8>,
    pub metadata: MessageMetadata,
}

/// A message as a line holds it: the payload is base64. The partition may be left out.
#[derive(Debug, Clone)]
pub struct RawMessage {
    pub partition: Option<usize>,
    pub offset: usize,
    pub payload: String,
    pub metadata: MessageMetadata,
}

/// The fields of a message that are written out, with the payload in base64.
#[derive(Debug, Clone)]
pub struct SerializedMessage<'a> {
    pub offset: usize,
    pub payload: String,
    pub metadata: &'a MessageMetadata,
}

/// Why a message cannot be read.
#[derive(Debug, Clone)]
pub struct PayloadError {
    pub message: String,
}

/// A message with its payload as a sequence.
pub struct MessageView {
    pub partition: usize,
    pub offset: usize,
    pub payload: Seq<u8>,
    pub metadata: MessageMetadata,
}

impl View for Message {
    type V = MessageView;

    open spec fn view(&self) -> MessageView {
        MessageView {
            partition: self.partition,
            offset: self.offset,
            payload: self.payload@,
            metadata: self.metadata,
        }
    }
}

/// What is written of a message, with the payload's text as a sequence.
pub struct SerializedMessageView {
    pub offset: usize,
    pub payload: Seq<char>,
    pub metadata: MessageMetadata,
}

impl<'a> View for SerializedMessage<'a> {
    type V = SerializedMessageView;

    open spec fn view(&self) -> SerializedMessageView {
        SerializedMessageView {
            offset: self.offset,
            payload: self.payload@,
            metadata: *self.metadata,
        }
    }
}

/// The payload of `message` in base64 fits in memory.
pub open spec fn can_be_written(message: MessageView) -> bool {
    payload::base64_len(message.payload.len()) <= isize::MAX
}

/// What is written of `message`: all but its partition.
pub open spec fn written(message: MessageView) -> SerializedMessageView {
    SerializedMessageView {
        offset: message.offset,
        payload: payload::base64_text(message.payload),
        metadata: message.metadata,
    }
}

/// The partition of a message that does not name one.
pub const DEFAULT_PARTITION: usize = 0;

/// The partition that a message belongs to.
pub open spec fn partition_or_default(partition: Option<usize>) -> usize {
    match partition {
        Some(p) => p,
        None => DEFAULT_PARTITION,
    }
}

/// What a raw message stands for, given what its payload decodes to.
pub open spec fn message_of(
    partition: Option<usize>,
    offset: usize,
    metadata: MessageMetadata,
    decoded: Result<Seq<u8>, Seq<char>>,
) -> Result<MessageView, Seq<char>> {
    match decoded {
        Ok(payload) => Ok(
            MessageView { partition: partition_or_default(partition), offset, payload, metadata },
        ),
        Err(reason) => Err("Failed to decode base64: "@ + reason),
    }
}

/// `res` is what `expected` says.
pub open spec fn is_message(
    res: Result<Message, PayloadError>,
    expected: Result<MessageView, Seq<char>>,
) -> bool {
    match res {
        Ok(message) => expected == Ok::<MessageView, Seq<char>>(message@),
        Err(error) => expected == Err::<MessageView, Seq<char>>(error.message@),
    }
}

impl Message {
    /// Reads a message whose payload is in base64.
    ///
    /// The message can be written, which gives the same offset, payload text and metadata again.
    pub fn deserialize(raw: RawMessage) -> (res: Result<Message, PayloadError>)
        ensures
            is_message(
                res,
                message_of(
                    raw.partition,
                    raw.offset,
                    raw.metadata,
                    payload::base64_payload(raw.payload@),
                ),
            ),
            res matches Ok(message) ==> can_be_written(message@) && written(message@) == (
            SerializedMessageView {
                offset: raw.offset,
                payload: raw.payload@,
                metadata: raw.metadata,
            }),
            match payload::base64_payload(raw.payload@) {
                Ok(bytes) => {
                    &&& res matches Ok(message)
                    &&& message.payload@ == bytes
                    &&& message.offset == raw.offset
                    &&& message.metadata == raw.metadata
                    &&& raw.partition matches Some(partition) ==> message.partition == partition
                    &&& raw.partition is None ==> message.partition == 0
                },
                Err(reason) => {
                    &&& res matches Err(error)
                    &&& error.message@ == "Failed to decode base64: "@ + reason
                },
            },
            res matches Ok(message) ==> payload::base64_text(message.payload@) == raw.payload@,
    {
        let decoded = payload::decode(raw.payload.as_str());
        Message::with_decoded_payload(raw.partition, raw.offset, raw.metadata, decoded)
    }

    /// The message that has `decoded` for its payload, or the error that `decoded` holds.
    pub fn with_decoded_payload(
        partition: Option<usize>,
        offset: usize,
        metadata: MessageMetadata,
        decoded: Result<Vec<u8>, String>,
    ) -> (res: Result<Message, PayloadError>)
        ensures
            is_message(
                res,
                message_of(
                    partition,
                    offset,
                    metadata,
                    match decoded {
                        Ok(payload) => Ok(payload@),
                        Err(reason) => Err(reason@),
                    },
                ),
            ),
            decoded matches Ok(payload) ==> {
                &&& res matches Ok(message)
                &&& message.payload@ == payload@
                &&& message.offset == offset
                &&& message.metadata == metadata
                &&& partition matches Some(known) ==> message.partition == known
                &&& partition is None ==> message.partition == 0
            },
            decoded matches Err(reason) ==> {
                &&& res matches Err(error)
                &&& error.message@ == "Failed to decode base64: "@ + reason@
            },
    {
        match decoded {
            Ok(payload) => Ok(
                Message {
                    partition: partition.unwrap_or(DEFAULT_PARTITION),
                    offset,
                    payload,
                    metadata,
                },
            ),
            Err(reason) => {
                let mut message = "Failed to decode base64: ".to_owned();
                message.append(reason.as_str());
                Err(PayloadError { message })
            },
        }
    }

    /// Writes a message with its payload in base64. The partition is not written.
    ///
    /// Whatever partition is then put beside it, the message that is read back has the same
    /// offset, payload and metadata.
    pub fn serialize(&self) -> (res: SerializedMessage<'_>)
        requires
            can_be_written(self@),
        ensures
            res@ == written(self@),
            res.payload@.len() == payload::base64_len(self.payload@.len()),
            res.offset == self.offset,
            res.payload@ == payload::base64_text(self.payload@),
            payload::base64_payload(res.payload@) == Ok::<Seq<u8>, Seq<char>>(self.payload@),
            *res.metadata == self.metadata,
            forall|partition: Option<usize>|
                #[trigger] message_of(
                    partition,
                    res.offset,
                    *res.metadata,
                    payload::base64_payload(res.payload@),
                ) == Ok::<MessageView, Seq<char>>(
                    MessageView { partition: partition_or_default(partition), ..self@ },
                ),
    {
        self.with_encoded_payload(payload::encode(self.payload.as_slice()))
    }

    /// The fields of the message that are written out, with `payload` for its payload.
    pub fn with_encoded_payload(&self, payload: String) -> (res: SerializedMessage<'_>)
        ensures
            res@ == (SerializedMessageView {
                offset: self.offset,
                payload: payload@,
                metadata: self.metadata,
            }),
            res.offset == self.offset,
            res.payload@ == payload@,
            *res.metadata == self.metadata,
    {
        SerializedMessage { offset: self.offset, payload, metadata: &self.metadata }
    }
}

/// The messages of one request.
#[derive(Debug, Clone)]
pub struct MessageResponse {
    pub partition: usize,
    pub high_watermark: usize,
    pub messages: Vec<Message>,
}

/// Why the body of a response cannot be read; `E` is the parser's own error.
#[derive(Debug, Clone)]
pub enum BodyError<E> {
    /// A line does not hold a message.
    Message(E),
    /// A line is not valid UTF-8.
    InvalidUtf8,
}

/// How many outcomes stand before the first failure; all of them where none failed.
pub open spec fn parsed_len<E>(parsed: Seq<Result<Message, E>>) -> nat
    decreases parsed.len(),
{
    if parsed.len() == 0 || parsed[0] is Err {
        0
    } else {
        1 + parsed_len(parsed.drop_first())
    }
}

proof fn lemma_parsed_len<E>(parsed: Seq<Result<Message, E>>)
    ensures
        parsed_len(parsed) <= parsed.len(),
        forall|i: int| 0 <= i < parsed_len(parsed) ==> (#[trigger] parsed[i]) is Ok,
        parsed_len(parsed) < parsed.len() ==> parsed[parsed_len(parsed) as int] is Err,
    decreases parsed.len(),
{
    if parsed.len() > 0 && parsed[0] is Ok {
        let rest = parsed.drop_first();
        lemma_parsed_len(rest);
        assert forall|i: int| 0 <= i < parsed_len(parsed) implies (#[trigger] parsed[i]) is Ok by {
            if i > 0 {
                assert(parsed[i] == rest[i - 1]);
            }
        }
    }
}

/// `res` is the response that `parsed` leads to, the outcomes of parsing the lines of a body in
/// their order: the first failure decides; without one, a line that is not valid UTF-8 does,
/// where the body is not `complete`; and else every line is a message.
pub open spec fn is_response<E>(
    res: Result<MessageResponse, BodyError<E>>,
    partition: usize,
    high_watermark: usize,
    parsed: Seq<Result<Message, E>>,
    complete: bool,
) -> bool {
    if parsed_len(parsed) < parsed.len() {
        res matches Err(BodyError::Message(error)) && parsed[parsed_len(parsed) as int] == Err::<
            Message,
            E,
        >(error)
    } else if !complete {
        res matches Err(BodyError::InvalidUtf8)
    } else {
        &&& res matches Ok(response)
        &&& response.partition == partition
        &&& response.high_watermark == high_watermark
        &&& response.messages@ == parsed.map_values(|one: Result<Message, E>| one->Ok_0)
    }
}

/// `outcome` is what `parse` may make of `line`.
pub open spec fn parses_to<E, F: Fn(&str) -> Result<Message, E>>(
    parse: F,
    line: Seq<char>,
    outcome: Result<Message, E>,
) -> bool {
    exists|given: &str| given@ == line && #[trigger] call_ensures(parse, (given,), outcome)
}

/// `parsed` is what `parse` makes of the lines of a body that hold messages, in their order and
/// up to the first failure.
pub open spec fn parsed_from<E, F: Fn(&str) -> Result<Message, E>>(
    parsed: Seq<Result<Message, E>>,
    parse: F,
    body: Seq<u8>,
) -> bool {
    let texts = ndjson::readable_texts(body);
    &&& parsed.len() <= texts.len()
    &&& forall|i: int| 0 <= i < parsed.len() ==> parses_to(parse, texts[i], #[trigger] parsed[i])
    &&& forall|i: int| 0 <= i < parsed.len() - 1 ==> (#[trigger] parsed[i]) is Ok
    &&& parsed.len() < texts.len() ==> parsed.len() > 0 && parsed.last() is Err
}

/// `res` is what reading `body` may give: what the outcomes of `parse` on its messages lead to.
pub open spec fn reads_as<E, F: Fn(&str) -> Result<Message, E>>(
    res: Result<MessageResponse, BodyError<E>>,
    partition: usize,
    high_watermark: usize,
    body: Seq<u8>,
    parse: F,
) -> bool {
    exists|parsed: Seq<Result<Message, E>>|
        #[trigger] parsed_from(parsed, parse, body) && is_response(
            res,
            partition,
            high_watermark,
            parsed,
            ndjson::is_readable(body),
        )
}

/// `parse` makes one thing only of every line.
pub open spec fn is_deterministic<E, F: Fn(&str) -> Result<Message, E>>(parse: F) -> bool {
    forall|line: Seq<char>, a: Result<Message, E>, b: Result<Message, E>|
        #[trigger] parses_to(parse, line, a) && #[trigger] parses_to(parse, line, b) ==> a == b
}

/// `parse` makes the same of a line with and without a carriage return behind it.
pub open spec fn skips_carriage_return<E, F: Fn(&str) -> Result<Message, E>>(parse: F) -> bool {
    forall|line: Seq<char>, outcome: Result<Message, E>|
        #[trigger] parses_to(parse, line.push('\r'), outcome) == parses_to(parse, line, outcome)
}

/// `parse` may make the same messages of two lines, and may fail on both or on neither; its errors
/// may differ.
pub open spec fn parses_alike<E, F: Fn(&str) -> Result<Message, E>>(
    parse: F,
    a: Seq<char>,
    b: Seq<char>,
) -> bool {
    &&& forall|message: Message|
        #[trigger] parses_to(parse, a, Ok::<Message, E>(message)) == parses_to(
            parse,
            b,
            Ok::<Message, E>(message),
        )
    &&& (exists|error: E| #[trigger] parses_to(parse, a, Err::<Message, E>(error))) == (exists|
        error: E,
    | #[trigger] parses_to(parse, b, Err::<Message, E>(error)))
}

/// `parse` makes the same of a line with and without a carriage return behind it, but for the
/// error where it fails, which may tell of the place.
pub open spec fn reads_past_carriage_return<E, F: Fn(&str) -> Result<Message, E>>(
    parse: F,
) -> bool {
    forall|line: Seq<char>| #[trigger] parses_alike::<E, F>(parse, line.push('\r'), line)
}

/// The body ends with a carriage return.
pub open spec fn ends_with_carriage_return(body: Seq<u8>) -> bool {
    body.len() > 0 && body.last() == ndjson::CARRIAGE_RETURN
}

/// Both are the same response, or both are failures.
pub open spec fn same_but_for_error<E>(
    a: Result<MessageResponse, BodyError<E>>,
    b: Result<MessageResponse, BodyError<E>>,
) -> bool {
    match (a, b) {
        (Ok(response), Ok(other)) => response == other,
        (Err(_), Err(_)) => true,
        _ => false,
    }
}

impl MessageResponse {
    /// The response to a request for messages of `partition`.
    ///
    /// `parsed` holds what parsing the lines of the body gave, in the order of the lines, and
    /// `complete` says that every line of the body is valid UTF-8.
    pub fn collect<E>(
        partition: usize,
        high_watermark: usize,
        parsed: Vec<Result<Message, E>>,
        complete: bool,
    ) -> (res: Result<MessageResponse, BodyError<E>>)
        ensures
            is_response(res, partition, high_watermark, parsed@, complete),
            forall|i: int|
                0 <= i < parsed@.len() && (forall|k: int|
                    0 <= k < i ==> (#[trigger] parsed@[k]) is Ok) ==> ((
                #[trigger] parsed@[i]) matches Err(error) ==> (res matches Err(
                    BodyError::Message(given),
                ) && given == error)),
            (forall|i: int| 0 <= i < parsed@.len() ==> (#[trigger] parsed@[i]) is Ok) && !complete
                ==> res == Err::<MessageResponse, BodyError<E>>(BodyError::InvalidUtf8),
            (forall|i: int| 0 <= i < parsed@.len() ==> (#[trigger] parsed@[i]) is Ok) && complete
                ==> {
                &&& res matches Ok(response)
                &&& response.partition == partition
                &&& response.high_watermark == high_watermark
                &&& response.messages@.len() == parsed@.len()
                &&& forall|i: int|
                    0 <= i < parsed@.len() ==> #[trigger] parsed@[i] == Ok::<Message, E>(
                        response.messages@[i],
                    )
            },
    {
        let mut messages: Vec<Message> = Vec::new();
        let ghost all = parsed@;
        proof {
            lemma_parsed_len(all);
        }
        for one in it: parsed
            invariant
                it.seq() == all,
                all == parsed@,
                parsed_len(all) <= all.len(),
                forall|i: int| 0 <= i < parsed_len(all) ==> (#[trigger] all[i]) is Ok,
                parsed_len(all) < all.len() ==> all[parsed_len(all) as int] is Err,
                it.index() <= parsed_len(all),
                messages@ == all.take(it.index()).map_values(
                    |one: Result<Message, E>| one->Ok_0,
                ),
        {
            let ghost i = it.index();
            assert(one == all[i]);
            match one {
                Ok(message) => {
                    messages.push(message);
                    assert(messages@ =~= all.take(i + 1).map_values(
                        |one: Result<Message, E>| one->Ok_0,
                    ));
                },
                Err(error) => {
                    return Err(BodyError::Message(error));
                },
            }
        }
        assert(all.take(all.len() as int) =~= all);
        if complete {
            Ok(MessageResponse { partition, high_watermark, messages })
        } else {
            Err(BodyError::InvalidUtf8)
        }
    }

    /// Reads the body of the response to a request for messages of `partition`: every line that
    /// is not blank is a message, which `parse` reads. Reading stops at the first line that
    /// cannot be read.
    pub fn read<E, F: Fn(&str) -> Result<Message, E>>(
        partition: usize,
        high_watermark: usize,
        body: &[u8],
        parse: F,
    ) -> (res: Result<MessageResponse, BodyError<E>>)
        requires
            forall|line: &str| #[trigger] call_requires(parse, (line,)),
        ensures
            reads_as(res, partition, high_watermark, body@, parse),
    {
        let found = ndjson::message_lines(body);
        let ghost texts = ndjson::readable_texts(body@);
        let mut parsed: Vec<Result<Message, E>> = Vec::new();
        let mut failed: bool = false;
        let mut i: usize = 0;
        while i < found.lines.len() && !failed
            invariant
                forall|line: &str| #[trigger] call_requires(parse, (line,)),
                found.texts() == texts,
                i <= found.lines@.len(),
                parsed@.len() == i,
                forall|k: int|
                    0 <= k < parsed@.len() ==> parses_to(parse, texts[k], #[trigger] parsed@[k]),
                forall|k: int| 0 <= k < parsed@.len() - 1 ==> (#[trigger] parsed@[k]) is Ok,
                failed == (parsed@.len() > 0 && parsed@.last() is Err),
            decreases found.lines@.len() - i,
        {
            let line = found.lines[i].as_str();
            assert(line@ == texts[i as int]);
            let one = parse(line);
            assert(parses_to(parse, texts[i as int], one));
            failed = one.is_err();
            parsed.push(one);
            i = i + 1;
        }
        assert(texts.len() == found.lines@.len());
        assert(parsed_from(parsed@, parse, body@));
        MessageResponse::collect(partition, high_watermark, parsed, found.complete)
    }
}

/// A body is read in full where all its lines are valid UTF-8 and `parse` fails on none of its
/// messages: there is then one message for each line that is not blank.
pub proof fn law_body_that_parses_is_read<E, F: Fn(&str) -> Result<Message, E>>(
    res: Result<MessageResponse, BodyError<E>>,
    partition: usize,
    high_watermark: usize,
    body: Seq<u8>,
    parse: F,
    parsed: Seq<Result<Message, E>>,
)
    requires
        parsed_from(parsed, parse, body),
        is_response(res, partition, high_watermark, parsed, ndjson::is_readable(body)),
        ndjson::is_readable(body),
        forall|line: Seq<char>, outcome: Result<Message, E>|
            ndjson::readable_texts(body).contains(line) && #[trigger] parses_to(
                parse,
                line,
                outcome,
            ) ==> outcome is Ok,
    ensures
        res matches Ok(response) && {
            &&& response.messages@.len() == ndjson::readable_texts(body).len()
            &&& forall|i: int|
                0 <= i < response.messages@.len() ==> parses_to(
                    parse,
                    ndjson::readable_texts(body)[i],
                    Ok::<Message, E>(#[trigger] response.messages@[i]),
                )
        },
{
    let texts = ndjson::readable_texts(body);
    assert forall|i: int| 0 <= i < parsed.len() implies (#[trigger] parsed[i]) is Ok by {
        assert(texts.contains(texts[i]));
        assert(parses_to(parse, texts[i], parsed[i]));
    }
    lemma_parsed_len(parsed);
    assert(parsed.len() == texts.len()) by {
        if parsed.len() < texts.len() {
            assert(parsed[parsed.len() - 1] is Ok);
        }
    }
    assert forall|i: int| 0 <= i < res->Ok_0.messages@.len() implies parses_to(
        parse,
        texts[i],
        Ok::<Message, E>(#[trigger] res->Ok_0.messages@[i]),
    ) by {
        assert(parses_to(parse, texts[i], parsed[i]));
        assert(parsed[i] == Ok::<Message, E>(res->Ok_0.messages@[i]));
    }
}

/// A blank line more or less, wherever it stands in a body, changes nothing in what reading the
/// body may give.
pub proof fn law_blank_line_changes_no_response<E, F: Fn(&str) -> Result<Message, E>>(
    res: Result<MessageResponse, BodyError<E>>,
    partition: usize,
    high_watermark: usize,
    a: Seq<u8>,
    line: Seq<u8>,
    b: Seq<u8>,
    parse: F,
)
    requires
        ndjson::ends_line(a),
        ndjson::is_blank_line(line),
    ensures
        reads_as(
            res,
            partition,
            high_watermark,
            a + line.push(ndjson::LINE_FEED) + b,
            parse,
        ) == reads_as(res, partition, high_watermark, a + b, parse),
{
    ndjson::law_blank_line_changes_nothing(a, line, b);
    lemma_same_texts_read_alike(
        res,
        partition,
        high_watermark,
        a + line.push(ndjson::LINE_FEED) + b,
        a + b,
        parse,
    );
}

/// White space behind the end of a body's last line changes nothing in what reading the body may
/// give.
pub proof fn law_blank_end_changes_no_response<E, F: Fn(&str) -> Result<Message, E>>(
    res: Result<MessageResponse, BodyError<E>>,
    partition: usize,
    high_watermark: usize,
    a: Seq<u8>,
    line: Seq<u8>,
    parse: F,
)
    requires
        ndjson::ends_line(a),
        ndjson::is_blank_end(line),
    ensures
        reads_as(res, partition, high_watermark, a + line, parse) == reads_as(
            res,
            partition,
            high_watermark,
            a,
            parse,
        ),
{
    ndjson::law_blank_end_changes_nothing(a, line);
    lemma_same_texts_read_alike(res, partition, high_watermark, a + line, a, parse);
}

/// A line feed at the end of a body changes nothing in what reading the body may give. Where the
/// body ends with a carriage return, that must make no difference to `parse`.
pub proof fn law_last_line_feed_changes_no_response<E, F: Fn(&str) -> Result<Message, E>>(
    res: Result<MessageResponse, BodyError<E>>,
    partition: usize,
    high_watermark: usize,
    a: Seq<u8>,
    parse: F,
)
    requires
        ends_with_carriage_return(a) ==> skips_carriage_return::<E, F>(parse),
    ensures
        reads_as(res, partition, high_watermark, a.push(ndjson::LINE_FEED), parse) == reads_as(
            res,
            partition,
            high_watermark,
            a,
            parse,
        ),
{
    let ended = a.push(ndjson::LINE_FEED);
    let texts = ndjson::readable_texts(a);
    let ended_texts = ndjson::readable_texts(ended);
    ndjson::law_last_line_feed_takes_only_a_carriage_return(a);
    if !ends_with_carriage_return(a) {
        ndjson::law_last_line_feed_changes_nothing(a);
    }
    assert forall|i: int, outcome: Result<Message, E>| 0 <= i < texts.len() implies parses_to(
        parse,
        #[trigger] texts[i],
        outcome,
    ) == #[trigger] parses_to(parse, ended_texts[i], outcome) by {
        if texts[i] != ended_texts[i] {
            assert(parses_to(parse, ended_texts[i].push('\r'), outcome) == parses_to(
                parse,
                ended_texts[i],
                outcome,
            ));
        }
    }
    assert forall|parsed: Seq<Result<Message, E>>| #[trigger]
        parsed_from(parsed, parse, ended) == parsed_from(parsed, parse, a) by {
        lemma_parsed_from_alike(parsed, parse, ended, a);
    }
    assert forall|parsed: Seq<Result<Message, E>>| #[trigger]
        parsed_from(parsed, parse, a) == parsed_from(parsed, parse, ended) by {
        lemma_parsed_from_alike(parsed, parse, ended, a);
    }
}

proof fn lemma_parsed_from_alike<E, F: Fn(&str) -> Result<Message, E>>(
    parsed: Seq<Result<Message, E>>,
    parse: F,
    a: Seq<u8>,
    b: Seq<u8>,
)
    requires
        ndjson::readable_texts(a).len() == ndjson::readable_texts(b).len(),
        forall|i: int, outcome: Result<Message, E>|
            0 <= i < ndjson::readable_texts(a).len() ==> #[trigger] parses_to(
                parse,
                ndjson::readable_texts(a)[i],
                outcome,
            ) == parses_to(parse, ndjson::readable_texts(b)[i], outcome),
    ensures
        parsed_from(parsed, parse, a) == parsed_from(parsed, parse, b),
{
    assert forall|i: int|
        0 <= i < parsed.len() && parsed.len() <= ndjson::readable_texts(a).len() implies parses_to(
        parse,
        ndjson::readable_texts(a)[i],
        #[trigger] parsed[i],
    ) == parses_to(parse, ndjson::readable_texts(b)[i], parsed[i]) by {}
}

/// A line feed at the end of a body changes nothing in the response that reading the body may
/// give, and nothing in whether reading it may fail. Where the body ends with a carriage return,
/// `parse` must read past that; which error it gives may then depend on it.
pub proof fn law_last_line_feed_changes_no_message<E, F: Fn(&str) -> Result<Message, E>>(
    res: Result<MessageResponse, BodyError<E>>,
    partition: usize,
    high_watermark: usize,
    a: Seq<u8>,
    parse: F,
)
    requires
        ends_with_carriage_return(a) ==> reads_past_carriage_return::<E, F>(parse),
    ensures
        reads_as(res, partition, high_watermark, a, parse) ==> exists|
            other: Result<MessageResponse, BodyError<E>>,
        |
            #[trigger] reads_as(
                other,
                partition,
                high_watermark,
                a.push(ndjson::LINE_FEED),
                parse,
            ) && same_but_for_error(res, other),
        reads_as(res, partition, high_watermark, a.push(ndjson::LINE_FEED), parse) ==> exists|
            other: Result<MessageResponse, BodyError<E>>,
        |
            #[trigger] reads_as(other, partition, high_watermark, a, parse) && same_but_for_error(
                res,
                other,
            ),
{
    let ended = a.push(ndjson::LINE_FEED);
    lemma_last_line_feed_parses_alike::<E, F>(a, parse);
    if reads_as(res, partition, high_watermark, a, parse) {
        let other = lemma_alike_texts_read_alike(res, partition, high_watermark, a, ended, parse);
        assert(reads_as(other, partition, high_watermark, ended, parse));
    }
    if reads_as(res, partition, high_watermark, ended, parse) {
        let other = lemma_alike_texts_read_alike(res, partition, high_watermark, ended, a, parse);
        assert(reads_as(other, partition, high_watermark, a, parse));
    }
}

/// What a line feed at the end of a body leaves of every text parses as that text.
proof fn lemma_last_line_feed_parses_alike<E, F: Fn(&str) -> Result<Message, E>>(
    a: Seq<u8>,
    parse: F,
)
    requires
        ends_with_carriage_return(a) ==> reads_past_carriage_return::<E, F>(parse),
    ensures
        ndjson::is_readable(a.push(ndjson::LINE_FEED)) == ndjson::is_readable(a),
        all_parse_alike::<E, F>(
            parse,
            ndjson::readable_texts(a),
            ndjson::readable_texts(a.push(ndjson::LINE_FEED)),
        ),
        all_parse_alike::<E, F>(
            parse,
            ndjson::readable_texts(a.push(ndjson::LINE_FEED)),
            ndjson::readable_texts(a),
        ),
{
    let texts = ndjson::readable_texts(a);
    let ended_texts = ndjson::readable_texts(a.push(ndjson::LINE_FEED));
    ndjson::law_last_line_feed_takes_only_a_carriage_return(a);
    if !ends_with_carriage_return(a) {
        ndjson::law_last_line_feed_changes_nothing(a);
    }
    assert forall|i: int| 0 <= i < texts.len() implies parses_alike::<E, F>(
        parse,
        #[trigger] texts[i],
        ended_texts[i],
    ) && parses_alike::<E, F>(parse, ended_texts[i], texts[i]) by {
        if texts[i] != ended_texts[i] {
            assert(parses_alike::<E, F>(parse, ended_texts[i].push('\r'), ended_texts[i]));
        }
    }
}

/// Text by text, `parse` makes the same messages of both or fails on both.
spec fn all_parse_alike<E, F: Fn(&str) -> Result<Message, E>>(
    parse: F,
    a: Seq<Seq<char>>,
    b: Seq<Seq<char>>,
) -> bool {
    &&& a.len() == b.len()
    &&& forall|i: int|
        0 <= i < a.len() ==> #[trigger] parses_alike::<E, F>(parse, a[i], b[i])
}

proof fn lemma_alike_texts_read_alike<E, F: Fn(&str) -> Result<Message, E>>(
    res: Result<MessageResponse, BodyError<E>>,
    partition: usize,
    high_watermark: usize,
    a: Seq<u8>,
    b: Seq<u8>,
    parse: F,
) -> (other: Result<MessageResponse, BodyError<E>>)
    requires
        all_parse_alike::<E, F>(parse, ndjson::readable_texts(a), ndjson::readable_texts(b)),
        ndjson::is_readable(a) == ndjson::is_readable(b),
        reads_as(res, partition, high_watermark, a, parse),
    ensures
        reads_as(other, partition, high_watermark, b, parse),
        same_but_for_error(res, other),
{
    let texts = ndjson::readable_texts(a);
    let other_texts = ndjson::readable_texts(b);
    let parsed = choose|parsed: Seq<Result<Message, E>>|
        #[trigger] parsed_from(parsed, parse, a) && is_response(
            res,
            partition,
            high_watermark,
            parsed,
            ndjson::is_readable(a),
        );
    let others = Seq::new(
        parsed.len(),
        |i: int|
            match parsed[i] {
                Ok(message) => Ok::<Message, E>(message),
                Err(_) => Err(
                    choose|error: E| #[trigger]
                        parses_to(parse, other_texts[i], Err::<Message, E>(error)),
                ),
            },
    );
    assert forall|i: int| 0 <= i < others.len() implies parses_to(
        parse,
        other_texts[i],
        #[trigger] others[i],
    ) by {
        assert(parses_to(parse, texts[i], parsed[i]));
        assert(parses_alike::<E, F>(parse, texts[i], other_texts[i]));
        match parsed[i] {
            Ok(message) => {
                assert(parses_to(parse, texts[i], Ok::<Message, E>(message)));
            },
            Err(error) => {
                assert(parses_to(parse, texts[i], Err::<Message, E>(error)));
            },
        }
    }
    assert(parsed_from(others, parse, b));
    lemma_parsed_len(parsed);
    lemma_parsed_len(others);
    let n = parsed_len(parsed) as int;
    let m = parsed_len(others) as int;
    assert(n == m) by {
        if n < m {
            assert(others[n] is Ok);
        }
        if m < n {
            assert(parsed[m] is Ok);
        }
    }
    if n < parsed.len() {
        Err(BodyError::Message(others[n]->Err_0))
    } else {
        assert(others.map_values(|one: Result<Message, E>| one->Ok_0) =~= parsed.map_values(
            |one: Result<Message, E>| one->Ok_0,
        ));
        res
    }
}

proof fn lemma_same_texts_read_alike<E, F: Fn(&str) -> Result<Message, E>>(
    res: Result<MessageResponse, BodyError<E>>,
    partition: usize,
    high_watermark: usize,
    a: Seq<u8>,
    b: Seq<u8>,
    parse: F,
)
    requires
        ndjson::readable_texts(a) == ndjson::readable_texts(b),
        ndjson::is_readable(a) == ndjson::is_readable(b),
    ensures
        reads_as(res, partition, high_watermark, a, parse) == reads_as(
            res,
            partition,
            high_watermark,
            b,
            parse,
        ),
{
    assert forall|parsed: Seq<Result<Message, E>>|
        #[trigger] parsed_from(parsed, parse, a) == parsed_from(parsed, parse, b) by {}
    assert forall|parsed: Seq<Result<Message, E>>|
        #[trigger] parsed_from(parsed, parse, b) == parsed_from(parsed, parse, a) by {}
}

/// Where reading a body succeeds, all of it can be read, and every outcome is a message.
proof fn lemma_read_in_full<E, F: Fn(&str) -> Result<Message, E>>(
    response: MessageResponse,
    partition: usize,
    high_watermark: usize,
    body: Seq<u8>,
    parse: F,
)
    requires
        reads_as(Ok::<_, BodyError<E>>(response), partition, high_watermark, body, parse),
    ensures
        ndjson::is_readable(body),
        response.messages@.len() == ndjson::readable_texts(body).len(),
        forall|i: int|
            0 <= i < response.messages@.len() ==> parses_to(
                parse,
                ndjson::readable_texts(body)[i],
                Ok::<Message, E>(#[trigger] response.messages@[i]),
            ),
{
    let texts = ndjson::readable_texts(body);
    let parsed = choose|parsed: Seq<Result<Message, E>>|
        #[trigger] parsed_from(parsed, parse, body) && is_response(
            Ok::<_, BodyError<E>>(response),
            partition,
            high_watermark,
            parsed,
            ndjson::is_readable(body),
        );
    lemma_parsed_len(parsed);
    if parsed.len() < texts.len() {
        assert(parsed[parsed.len() - 1] is Ok);
    }
    assert forall|i: int| 0 <= i < response.messages@.len() implies parses_to(
        parse,
        texts[i],
        Ok::<Message, E>(#[trigger] response.messages@[i]),
    ) by {
        assert(parses_to(parse, texts[i], parsed[i]));
        assert(parsed[i] == Ok::<Message, E>(response.messages@[i]));
    }
}

/// Where two bodies can be read, the two joined by a line feed can be, and give the messages of
/// the first and then those of the second: none is left out, moved or merged. Where the first ends
/// with a carriage return, which becomes part of its last line's end, `parse` must read past that.
pub proof fn law_joined_bodies_give_both<E, F: Fn(&str) -> Result<Message, E>>(
    res: Result<MessageResponse, BodyError<E>>,
    first: MessageResponse,
    second: MessageResponse,
    partition: usize,
    high_watermark: usize,
    a: Seq<u8>,
    b: Seq<u8>,
    parse: F,
)
    requires
        is_deterministic::<E, F>(parse),
        ends_with_carriage_return(a) ==> reads_past_carriage_return::<E, F>(parse),
        reads_as(Ok::<_, BodyError<E>>(first), partition, high_watermark, a, parse),
        reads_as(Ok::<_, BodyError<E>>(second), partition, high_watermark, b, parse),
        reads_as(res, partition, high_watermark, a.push(ndjson::LINE_FEED) + b, parse),
    ensures
        res matches Ok(response) && {
            &&& response.partition == partition
            &&& response.high_watermark == high_watermark
            &&& response.messages@ == first.messages@ + second.messages@
        },
{
    let body = a.push(ndjson::LINE_FEED) + b;
    let texts = ndjson::readable_texts(body);
    let both = first.messages@ + second.messages@;
    let ended = a.push(ndjson::LINE_FEED);
    lemma_read_in_full::<E, F>(first, partition, high_watermark, a, parse);
    lemma_read_in_full::<E, F>(second, partition, high_watermark, b, parse);
    lemma_last_line_feed_parses_alike::<E, F>(a, parse);
    ndjson::law_following_body_is_read_after(ended, b);
    assert forall|i: int| 0 <= i < both.len() implies parses_to(
        parse,
        texts[i],
        Ok::<Message, E>(#[trigger] both[i]),
    ) by {
        if i < first.messages@.len() {
            assert(both[i] == first.messages@[i]);
            assert(parses_alike::<E, F>(
                parse,
                ndjson::readable_texts(a)[i],
                ndjson::readable_texts(ended)[i],
            ));
            assert(parses_to(
                parse,
                ndjson::readable_texts(a)[i],
                Ok::<Message, E>(first.messages@[i]),
            ));
        } else {
            assert(both[i] == second.messages@[i - first.messages@.len()]);
        }
    }
    let parsed = choose|parsed: Seq<Result<Message, E>>|
        #[trigger] parsed_from(parsed, parse, body) && is_response(
            res,
            partition,
            high_watermark,
            parsed,
            ndjson::is_readable(body),
        );
    assert forall|i: int| 0 <= i < parsed.len() implies #[trigger] parsed[i] == Ok::<Message, E>(
        both[i],
    ) by {
        assert(parses_to(parse, texts[i], parsed[i]));
        assert(parses_to(parse, texts[i], Ok::<Message, E>(both[i])));
    }
    lemma_parsed_len(parsed);
    if parsed.len() < texts.len() {
        assert(parsed[parsed.len() - 1] is Ok);
    }
    assert(parsed.map_values(|one: Result<Message, E>| one->Ok_0) =~= both);
}

/// The header in which a response gives its partition's high-water mark.
pub fn high_watermark_header() -> (res: &'static str)
    ensures
        res@ == "X-High-Water-Mark"@,
{
    "X-High-Water-Mark"
}

/// Reads the high-water mark from the value of its header; `None` where the header is missing
/// or does not hold a number.
pub fn parse_high_watermark(header: Option<&str>) -> (res: Option<usize>)
    ensures
        res == match header {
            Some(value) => text::usize_of(value@),
            None => None,
        },
{
    match header {
        Some(value) => text::parse_usize(value),
        None => None,
    }
}

/// The HTTP client type of `reqwest`, which is carried along and not looked into.
#[verifier::external_type_specification]
#[verifier::external_body]
pub struct ExHttpClient(reqwest::Client);

/// Clones a `reqwest` client.
///
/// `reqwest::Client` is one shared pointer, so its `clone` is the same client again.
pub assume_specification[ <reqwest::Client as Clone>::clone ](client: &reqwest::Client) -> (res:
    reqwest::Client)
    ensures
        res == *client,
;

/// A client of the API at one endpoint.
#[derive(Debug)]
pub struct ApiClient {
    endpoint: String,
    client: reqwest::Client,
}

impl Clone for ApiClient {
    fn clone(&self) -> (res: Self)
        ensures
            res == *self,
    {
        Self { endpoint: self.endpoint.clone(), client: self.client.clone() }
    }
}

/// The address of the list of topics.
pub open spec fn topics_address(endpoint: Seq<char>) -> Seq<char> {
    endpoint + "/topics"@
}

/// The address of one topic.
pub open spec fn topic_address(endpoint: Seq<char>, topic: Seq<char>) -> Seq<char> {
    endpoint + "/topics/"@ + topic
}

/// The address of at most `batch_size` messages of a partition, from `offset` on.
pub open spec fn messages_address(
    endpoint: Seq<char>,
    topic: Seq<char>,
    partition: usize,
    offset: usize,
    batch_size: usize,
) -> Seq<char> {
    endpoint + "/topics/"@ + topic + "/partitions/"@ + text::decimal(partition as nat)
        + "/messages?offset="@ + text::decimal(offset as nat) + "&maxMessages="@ + text::decimal(
        batch_size as nat,
    )
}

impl ApiClient {
    /// Where the API is.
    pub closed spec fn spec_endpoint(&self) -> Seq<char> {
        self.endpoint@
    }

    /// What requests are sent with.
    pub closed spec fn spec_client(&self) -> reqwest::Client {
        self.client
    }

    /// A client of the API at `endpoint` that sends its requests with `client`.
    pub fn new(endpoint: String, client: reqwest::Client) -> (res: Self)
        ensures
            res.spec_endpoint() == endpoint@,
            res.spec_client() == client,
    {
        Self { endpoint, client }
    }

    /// What requests are sent with.
    pub fn client(&self) -> (res: &reqwest::Client)
        ensures
            *res == self.spec_client(),
    {
        &self.client
    }

    /// Where the topics are listed.
    pub fn list_topics_url(&self) -> (res: String)
        ensures
            res@ == topics_address(self.spec_endpoint()),
            res@ == self.spec_endpoint() + "/topics"@,
    {
        let mut url = self.endpoint.clone();
        url.append("/topics");
        url
    }

    /// Where the topic `topic_name` is described.
    pub fn get_topic_url(&self, topic_name: &str) -> (res: String)
        ensures
            res@ == topic_address(self.spec_endpoint(), topic_name@),
            res@ == self.spec_endpoint() + "/topics/"@ + topic_name@,
    {
        let mut url = self.endpoint.clone();
        url.append("/topics/");
        url.append(topic_name);
        url
    }

    /// Where messages of a partition are found.
    pub fn get_messages_url(
        &self,
        topic_name: &str,
        partition_id: usize,
        offset: usize,
        batch_size: usize,
    ) -> (res: String)
        ensures
            res@ == messages_address(
                self.spec_endpoint(),
                topic_name@,
                partition_id,
                offset,
                batch_size,
            ),
            res@ == self.spec_endpoint() + "/topics/"@ + topic_name@ + "/partitions/"@
                + text::decimal(partition_id as nat) + "/messages?offset="@ + text::decimal(
                offset as nat,
            ) + "&maxMessages="@ + text::decimal(batch_size as nat),
    {
        let mut url = self.get_topic_url(topic_name);
        url.append("/partitions/");
        text::append_decimal(&mut url, partition_id);
        url.append("/messages?offset=");
        text::append_decimal(&mut url, offset);
        url.append("&maxMessages=");
        text::append_decimal(&mut url, batch_size);
        url
    }
}

/// The address of messages, taken apart from the left.
proof fn lemma_messages_address(
    endpoint: Seq<char>,
    topic: Seq<char>,
    partition: usize,
    offset: usize,
    batch_size: usize,
)
    ensures
        messages_address(endpoint, topic, partition, offset, batch_size) == (endpoint + "/topics/"@
            + topic + "/partitions/"@) + (text::decimal(partition as nat) + ("/messages?offset="@
            + (text::decimal(offset as nat) + ("&maxMessages="@ + text::decimal(
            batch_size as nat,
        ))))),
{
    let front = endpoint + "/topics/"@ + topic + "/partitions/"@;
    let a = text::decimal(partition as nat);
    let b = "/messages?offset="@;
    let c = text::decimal(offset as nat);
    let d = "&maxMessages="@;
    let e = text::decimal(batch_size as nat);
    assert(front + a + b + c + d + e =~= front + (a + (b + (c + (d + e)))));
}

/// Requests for messages of one topic that ask for anything different have different
/// addresses.
pub proof fn law_messages_address_is_unique(
    endpoint: Seq<char>,
    topic: Seq<char>,
    partition_a: usize,
    offset_a: usize,
    batch_size_a: usize,
    partition_b: usize,
    offset_b: usize,
    batch_size_b: usize,
)
    requires
        messages_address(endpoint, topic, partition_a, offset_a, batch_size_a) == messages_address(
            endpoint,
            topic,
            partition_b,
            offset_b,
            batch_size_b,
        ),
    ensures
        partition_a == partition_b,
        offset_a == offset_b,
        batch_size_a == batch_size_b,
{
    let front = endpoint + "/topics/"@ + topic + "/partitions/"@;
    let offset_key = "/messages?offset="@;
    let size_key = "&maxMessages="@;
    assert(offset_key.len() > 0 && !text::is_digit(offset_key[0])) by {
        reveal_strlit("/messages?offset=");
    }
    assert(size_key.len() > 0 && !text::is_digit(size_key[0])) by {
        reveal_strlit("&maxMessages=");
    }
    lemma_messages_address(endpoint, topic, partition_a, offset_a, batch_size_a);
    lemma_messages_address(endpoint, topic, partition_b, offset_b, batch_size_b);
    let size_a = text::decimal(batch_size_a as nat);
    let size_b = text::decimal(batch_size_b as nat);
    let from_a = text::decimal(offset_a as nat) + (size_key + size_a);
    let from_b = text::decimal(offset_b as nat) + (size_key + size_b);
    text::lemma_cancel_front(
        front,
        text::decimal(partition_a as nat) + (offset_key + from_a),
        text::decimal(partition_b as nat) + (offset_key + from_b),
    );
    text::law_decimal_is_delimited(
        partition_a as nat,
        partition_b as nat,
        offset_key + from_a,
        offset_key + from_b,
    );
    text::lemma_cancel_front(offset_key, from_a, from_b);
    text::law_decimal_is_delimited(
        offset_a as nat,
        offset_b as nat,
        size_key + size_a,
        size_key + size_b,
    );
    text::lemma_cancel_front(size_key, size_a, size_b);
    text::lemma_decimal(batch_size_a as nat);
    text::lemma_decimal(batch_size_b as nat);
}

/// A message that is read has for its payload exactly the bytes that its text decodes to, whatever
/// their number, and the offset and metadata that came with them. It has the partition that it
/// names, and the first where it names none. It is written with the text of exactly those bytes.
pub proof fn law_payload_is_carried_as_it_is(raw: RawMessage, message: Message)
    requires
        is_message(
            Ok(message),
            message_of(
                raw.partition,
                raw.offset,
                raw.metadata,
                payload::base64_payload(raw.payload@),
            ),
        ),
    ensures
        payload::base64_payload(raw.payload@) == Ok::<Seq<u8>, Seq<char>>(message.payload@),
        message.offset == raw.offset,
        message.metadata == raw.metadata,
        raw.partition matches Some(partition) ==> message.partition == partition,
        raw.partition is None ==> message.partition == 0,
        written(message@).payload == payload::base64_text(message.payload@),
        written(message@).offset == raw.offset,
        written(message@).metadata == raw.metadata,
{
}

/// A message cannot be read exactly where its text does not decode, and the error says why.
pub proof fn law_refused_payload_is_reported(raw: RawMessage, error: PayloadError)
    requires
        is_message(
            Err(error),
            message_of(
                raw.partition,
                raw.offset,
                raw.metadata,
                payload::base64_payload(raw.payload@),
            ),
        ),
    ensures
        payload::base64_payload(raw.payload@) matches Err(reason) && error.message@
            == "Failed to decode base64: "@ + reason,
{
}

/// Two messages that are written alike are the same but for their partition, where both texts
/// decode to what was written.
pub proof fn law_written_messages_tell_apart(a: Message, b: Message)
    requires
        written(a@) == written(b@),
        payload::base64_payload(payload::base64_text(a.payload@)) == Ok::<Seq<u8>, Seq<char>>(
            a.payload@,
        ),
        payload::base64_payload(payload::base64_text(b.payload@)) == Ok::<Seq<u8>, Seq<char>>(
            b.payload@,
        ),
    ensures
        a.offset == b.offset,
        a.payload@ == b.payload@,
        a.metadata == b.metadata,
{
}

/// A message can be written exactly where four characters for every three bytes of it, begun groups
/// counted whole, fit in memory.
pub proof fn law_room_for_a_written_message(message: Message, groups: nat)
    requires
        3 * groups < message.payload@.len() + 3,
        message.payload@.len() <= 3 * groups,
    ensures
        can_be_written(message@) == (4 * groups <= isize::MAX),
{
}

/// Every response accounts for its body. One that was read has, in their order, what `parse` makes
/// of each text of the body, and nothing else. One that was not stands for the first text that
/// `parse` fails on; or for a line that is not valid UTF-8, where `parse` fails on no text before it.
pub proof fn law_response_accounts_for_its_body<E, F: Fn(&str) -> Result<Message, E>>(
    res: Result<MessageResponse, BodyError<E>>,
    partition: usize,
    high_watermark: usize,
    body: Seq<u8>,
    parse: F,
)
    requires
        reads_as(res, partition, high_watermark, body, parse),
    ensures
        res matches Ok(response) ==> {
            &&& response.partition == partition
            &&& response.high_watermark == high_watermark
            &&& ndjson::is_readable(body)
            &&& response.messages@.len() == ndjson::readable_texts(body).len()
            &&& forall|i: int|
                0 <= i < response.messages@.len() ==> parses_to(
                    parse,
                    ndjson::readable_texts(body)[i],
                    Ok::<Message, E>(#[trigger] response.messages@[i]),
                )
        },
        res matches Err(BodyError::Message(error)) ==> exists|at: int|
            {
                &&& 0 <= at < ndjson::readable_texts(body).len()
                &&& parses_to(
                    parse,
                    #[trigger] ndjson::readable_texts(body)[at],
                    Err::<Message, E>(error),
                )
                &&& forall|i: int|
                    0 <= i < at ==> may_parse::<E, F>(
                        parse,
                        #[trigger] ndjson::readable_texts(body)[i],
                    )
            },
        res matches Err(BodyError::InvalidUtf8) ==> {
            &&& !ndjson::is_readable(body)
            &&& forall|i: int|
                0 <= i < ndjson::readable_texts(body).len() ==> may_parse::<E, F>(
                    parse,
                    #[trigger] ndjson::readable_texts(body)[i],
                )
        },
{
    let texts = ndjson::readable_texts(body);
    let parsed = choose|parsed: Seq<Result<Message, E>>|
        #[trigger] parsed_from(parsed, parse, body) && is_response(
            res,
            partition,
            high_watermark,
            parsed,
            ndjson::is_readable(body),
        );
    lemma_parsed_len(parsed);
    let n = parsed_len(parsed) as int;
    if n == parsed.len() && parsed.len() < texts.len() {
        assert(parsed[parsed.len() - 1] is Ok);
    }
    assert forall|i: int| 0 <= i < n implies may_parse::<E, F>(parse, #[trigger] texts[i]) by {
        assert(parses_to(parse, texts[i], parsed[i]));
        assert(parses_to(parse, texts[i], Ok::<Message, E>(parsed[i]->Ok_0)));
    }
    if n < parsed.len() {
        assert(parses_to(parse, texts[n], parsed[n]));
    } else if res is Ok {
        lemma_read_in_full::<E, F>(res->Ok_0, partition, high_watermark, body, parse);
    }
}

/// `parse` may make a message of `line`.
pub open spec fn may_parse<E, F: Fn(&str) -> Result<Message, E>>(
    parse: F,
    line: Seq<char>,
) -> bool {
    exists|message: Message| #[trigger] parses_to(parse, line, Ok::<Message, E>(message))
}

/// What may be made of a line is what a call of `parse` with that line may return, and nothing else.
pub proof fn law_outcomes_are_those_of_parse<E, F: Fn(&str) -> Result<Message, E>>(
    parse: F,
    line: Seq<char>,
    given: &str,
    outcome: Result<Message, E>,
)
    ensures
        given@ == line && call_ensures(parse, (given,), outcome) ==> parses_to(
            parse,
            line,
            outcome,
        ),
        parses_to(parse, line, outcome) ==> exists|other: &str|
            other@ == line && #[trigger] call_ensures(parse, (other,), outcome),
        may_parse::<E, F>(parse, line) ==> exists|message: Message, other: &str|
            other@ == line && #[trigger] call_ensures(
                parse,
                (other,),
                Ok::<Message, E>(message),
            ),
{
    if may_parse::<E, F>(parse, line) {
        let message = choose|message: Message| #[trigger]
            parses_to(parse, line, Ok::<Message, E>(message));
        let other = choose|other: &str|
            other@ == line && #[trigger] call_ensures(
                parse,
                (other,),
                Ok::<Message, E>(message),
            );
        assert(call_ensures(parse, (other,), Ok::<Message, E>(message)));
    }
}

/// The first line of a body is read first: where it holds any character that is not white space,
/// however long it is, the first message of the response is what `parse` makes of it, and there is
/// one message more than texts in what follows.
pub proof fn law_first_line_is_the_first_message<E, F: Fn(&str) -> Result<Message, E>>(
    response: MessageResponse,
    partition: usize,
    high_watermark: usize,
    line: Seq<u8>,
    end: Seq<u8>,
    rest: Seq<u8>,
    at: int,
    parse: F,
)
    requires
        forall|i: int| 0 <= i < line.len() ==> line[i] != 10,
        end == seq![13u8, 10u8] || end == seq![10u8] && (line.len() > 0 ==> line.last() != 13),
        0 <= at < vstd::utf8::decode_utf8(line).len(),
        !text::is_white_space(vstd::utf8::decode_utf8(line)[at]),
        reads_as(
            Ok::<_, BodyError<E>>(response),
            partition,
            high_watermark,
            line + end + rest,
            parse,
        ),
    ensures
        vstd::utf8::valid_utf8(line),
        response.messages@.len() == 1 + ndjson::readable_texts(rest).len(),
        parses_to(
            parse,
            vstd::utf8::decode_utf8(line),
            Ok::<Message, E>(response.messages@[0]),
        ),
{
    let res = Ok::<_, BodyError<E>>(response);
    let body = line + end + rest;
    law_response_accounts_for_its_body(res, partition, high_watermark, body, parse);
    ndjson::law_texts_come_line_by_line(line, end, rest);
    assert(ndjson::readable_texts(body)[0] == vstd::utf8::decode_utf8(line));
}

/// A topic lies under the list of topics, and the messages of a partition lie under their topic; all
/// of them lie under the endpoint.
pub proof fn law_addresses_lie_under_each_other(
    endpoint: Seq<char>,
    topic: Seq<char>,
    partition: usize,
    offset: usize,
    batch_size: usize,
)
    ensures
        topics_address(endpoint) == endpoint + "/topics"@,
        topic_address(endpoint, topic) == topics_address(endpoint) + "/"@ + topic,
        messages_address(endpoint, topic, partition, offset, batch_size) == topic_address(
            endpoint,
            topic,
        ) + "/partitions/"@ + text::decimal(partition as nat) + "/messages?offset="@
            + text::decimal(offset as nat) + "&maxMessages="@ + text::decimal(batch_size as nat),
{
    reveal_strlit("/topics");
    reveal_strlit("/topics/");
    reveal_strlit("/");
    assert("/topics"@ + "/"@ =~= "/topics/"@);
    assert(topic_address(endpoint, topic) =~= topics_address(endpoint) + "/"@ + topic);
}

} // verus!
