use vstd::prelude::*;

verus! {

/// A field that a response of the queue service may lack.
#[derive(Clone, Copy, Debug, PartialEq, Eq, Structural)]
pub enum Field {
    MessageId,
    Body,
    ReceiptHandle,
    BodyChecksum,
}

/// Why a read cannot go on.
#[derive(Clone, Copy, Debug, PartialEq, Eq, Structural)]
pub enum ReadError {
    /// Neither printing nor a destination queue was asked for.
    NoOutput,
    /// The approximate size of the queue was needed but not available.
    SizeUnavailable,
    /// A message handed over by the queue lacks a field the run needs.
    MissingField(Field),
}

/// One delivery as the queue service returned it; any field may be absent.
#[derive(Debug)]
pub struct ReceivedMessage {
    pub message_id: Option<String>,
    pub body: Option<String>,
    pub receipt_handle: Option<String>,
    pub md5_of_body: Option<String>,
    pub attributes: Vec<(String, String)>,
}

/// A delivery that carries everything the run needs.
#[derive(Debug)]
pub struct CollectedMessage {
    pub message_id: String,
    pub body: String,
    pub receipt_handle: String,
    pub md5_of_body: Option<String>,
    pub attributes: Vec<(String, String)>,
}

pub open spec fn opt_view(o: Option<String>) -> Option<Seq<char>> {
    match o {
        Some(s) => Some(s@),
        None => None,
    }
}

pub open spec fn pairs_view(v: Seq<(String, String)>) -> Seq<(Seq<char>, Seq<char>)> {
    v.map_values(|p: (String, String)| (p.0@, p.1@))
}

/// The mathematical value of a delivery as received.
pub struct ReceivedView {
    pub id: Option<Seq<char>>,
    pub body: Option<Seq<char>>,
    pub receipt: Option<Seq<char>>,
    pub checksum: Option<Seq<char>>,
    pub attributes: Seq<(Seq<char>, Seq<char>)>,
}

/// The mathematical value of a collected message.
pub struct MessageView {
    pub id: Seq<char>,
    pub body: Seq<char>,
    pub receipt: Seq<char>,
    pub checksum: Option<Seq<char>>,
    pub attributes: Seq<(Seq<char>, Seq<char>)>,
}

impl View for ReceivedMessage {
    type V = ReceivedView;

    open spec fn view(&self) -> ReceivedView {
        ReceivedView {
            id: opt_view(self.message_id),
            body: opt_view(self.body),
            receipt: opt_view(self.receipt_handle),
            checksum: opt_view(self.md5_of_body),
            attributes: pairs_view(self.attributes@),
        }
    }
}

impl View for CollectedMessage {
    type V = MessageView;

    open spec fn view(&self) -> MessageView {
        MessageView {
            id: self.message_id@,
            body: self.body@,
            receipt: self.receipt_handle@,
            checksum: opt_view(self.md5_of_body),
            attributes: pairs_view(self.attributes@),
        }
    }
}

/// The first field, in the order identity, body, receipt handle, that a
/// delivery lacks.
pub open spec fn missing_field(r: ReceivedView) -> Option<Field> {
    if r.id is None {
        Some(Field::MessageId)
    } else if r.body is None {
        Some(Field::Body)
    } else if r.receipt is None {
        Some(Field::ReceiptHandle)
    } else {
        None
    }
}

/// The collected message that a complete delivery stands for.
pub open spec fn complete(r: ReceivedView) -> MessageView {
    MessageView {
        id: r.id->Some_0,
        body: r.body->Some_0,
        receipt: r.receipt->Some_0,
        checksum: r.checksum,
        attributes: r.attributes,
    }
}

impl ReceivedMessage {
    /// Turns a delivery into a collected message, or names the first field
    /// it lacks.
    pub fn into_collected(self) -> (r: Result<CollectedMessage, Field>)
        ensures
            match missing_field(self@) {
                Some(f) => r == Err::<CollectedMessage, Field>(f),
                None => r is Ok && r->Ok_0@ == complete(self@),
            },
    {
        let ReceivedMessage { message_id, body, receipt_handle, md5_of_body, attributes } = self;
        match message_id {
            None => Err(Field::MessageId),
            Some(message_id) => match body {
                None => Err(Field::Body),
                Some(body) => match receipt_handle {
                    None => Err(Field::ReceiptHandle),
                    Some(receipt_handle) => Ok(
                        CollectedMessage { message_id, body, receipt_handle, md5_of_body, attributes },
                    ),
                },
            },
        }
    }
}

} // verus!
