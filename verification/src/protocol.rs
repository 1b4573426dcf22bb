use vstd::prelude::*;

verus! {

/// The 4-bit response status of a DNS header.
#[derive(Clone, Copy, Debug, PartialEq, Eq, Structural)]
pub enum ResponseCode {
    NoError,
    FormatError,
    ServerFailure,
    NameError,
    NotImplemented,
    Refused,
}

impl ResponseCode {
    /// The wire value of this response code.
    pub open spec fn spec_code(self) -> u8 {
        match self {
            ResponseCode::NoError => 0,
            ResponseCode::FormatError => 1,
            ResponseCode::ServerFailure => 2,
            ResponseCode::NameError => 3,
            ResponseCode::NotImplemented => 4,
            ResponseCode::Refused => 5,
        }
    }

    pub fn code(self) -> (r: u8)
        ensures
            r == self.spec_code(),
    {
        match self {
            ResponseCode::NoError => 0,
            ResponseCode::FormatError => 1,
            ResponseCode::ServerFailure => 2,
            ResponseCode::NameError => 3,
            ResponseCode::NotImplemented => 4,
            ResponseCode::Refused => 5,
        }
    }

    /// Decoding maps an unrecognized wire value to `FormatError` instead of
    /// rejecting the message.
    pub open spec fn spec_from_u8(v: u8) -> ResponseCode {
        if v == 0 {
            ResponseCode::NoError
        } else if v == 1 {
            ResponseCode::FormatError
        } else if v == 2 {
            ResponseCode::ServerFailure
        } else if v == 3 {
            ResponseCode::NameError
        } else if v == 4 {
            ResponseCode::NotImplemented
        } else if v == 5 {
            ResponseCode::Refused
        } else {
            ResponseCode::FormatError
        }
    }

    pub fn from_u8(v: u8) -> (r: Self)
        ensures
            r == Self::spec_from_u8(v),
    {
        if v == 0 {
            ResponseCode::NoError
        } else if v == 1 {
            ResponseCode::FormatError
        } else if v == 2 {
            ResponseCode::ServerFailure
        } else if v == 3 {
            ResponseCode::NameError
        } else if v == 4 {
            ResponseCode::NotImplemented
        } else if v == 5 {
            ResponseCode::Refused
        } else {
            ResponseCode::FormatError
        }
    }
}

/// The type of a question or answer record; the four covered record types.
#[derive(Clone, Copy, Debug, PartialEq, Eq, Structural)]
pub enum QueryType {
    A,
    NS,
    CNAME,
    AAAA,
}

impl QueryType {
    /// The wire value of this record type.
    pub open spec fn spec_code(self) -> u16 {
        match self {
            QueryType::A => 1,
            QueryType::NS => 2,
            QueryType::CNAME => 5,
            QueryType::AAAA => 28,
        }
    }

    pub fn code(self) -> (r: u16)
        ensures
            r == self.spec_code(),
    {
        match self {
            QueryType::A => 1,
            QueryType::NS => 2,
            QueryType::CNAME => 5,
            QueryType::AAAA => 28,
        }
    }

    /// Decoding maps an unrecognized wire value to `A` instead of rejecting
    /// the message.
    pub open spec fn spec_from_u16(v: u16) -> QueryType {
        if v == 1 {
            QueryType::A
        } else if v == 2 {
            QueryType::NS
        } else if v == 5 {
            QueryType::CNAME
        } else if v == 28 {
            QueryType::AAAA
        } else {
            QueryType::A
        }
    }

    pub fn from_u16(v: u16) -> (r: Self)
        ensures
            r == Self::spec_from_u16(v),
    {
        if v == 1 {
            QueryType::A
        } else if v == 2 {
            QueryType::NS
        } else if v == 5 {
            QueryType::CNAME
        } else if v == 28 {
            QueryType::AAAA
        } else {
            QueryType::A
        }
    }
}

/// The class of a question or answer record; only the internet class is
/// covered.
#[derive(Clone, Copy, Debug, PartialEq, Eq, Structural)]
pub enum QueryClass {
    IN,
}

impl QueryClass {
    /// The wire value of this class.
    pub open spec fn spec_code(self) -> u16 {
        match self {
            QueryClass::IN => 1,
        }
    }

    pub fn code(self) -> (r: u16)
        ensures
            r == self.spec_code(),
    {
        match self {
            QueryClass::IN => 1,
        }
    }

    /// Decoding maps an unrecognized wire value to `IN` instead of rejecting
    /// the message.
    pub open spec fn spec_from_u16(v: u16) -> QueryClass {
        if v == 1 {
            QueryClass::IN
        } else {
            QueryClass::IN
        }
    }

    pub fn from_u16(v: u16) -> (r: Self)
        ensures
            r == Self::spec_from_u16(v),
    {
        QueryClass::IN
    }
}

/// The fixed-size part of a DNS message: transaction id, the packed flag
/// word's fields, and the four section counts.
#[derive(Clone, Copy, Debug, PartialEq, Eq, Structural)]
pub struct DnsHeader {
    pub id: u16,
    pub qr: bool,
    pub opcode: u8,
    pub authoritative_answer: bool,
    pub truncation: bool,
    pub recursion_desired: bool,
    pub recursion_available: bool,
    pub rcode: ResponseCode,
    pub question_count: u16,
    pub answer_count: u16,
    pub authority_count: u16,
    pub additional_count: u16,
}

/// One question: a domain name with a type and a class. The name holds the
/// labels as raw bytes joined by `b'.'`; an empty name is the root.
#[derive(Debug, PartialEq, Eq)]
pub struct DnsQuestion {
    pub name: Vec<u8>,
    pub q_type: QueryType,
    pub q_class: QueryClass,
}

/// One answer record: a name, type, class, time-to-live, and the opaque
/// RDATA payload.
#[derive(Debug, PartialEq, Eq)]
pub struct ResourceRecord {
    pub name: Vec<u8>,
    pub q_type: QueryType,
    pub q_class: QueryClass,
    pub ttl: u32,
    pub data: Vec<u8>,
}

/// A whole DNS message: a header, the questions, and the answer records.
/// The authority and additional sections are carried only as counts in the
/// header.
#[derive(Debug, PartialEq, Eq)]
pub struct DnsMessage {
    pub header: DnsHeader,
    pub questions: Vec<DnsQuestion>,
    pub answers: Vec<ResourceRecord>,
}

/// The mathematical model of a question.
#[verifier::ext_equal]
pub struct QuestionModel {
    pub name: Seq<u8>,
    pub q_type: QueryType,
    pub q_class: QueryClass,
}

/// The mathematical model of an answer record.
#[verifier::ext_equal]
pub struct RecordModel {
    pub name: Seq<u8>,
    pub q_type: QueryType,
    pub q_class: QueryClass,
    pub ttl: u32,
    pub data: Seq<u8>,
}

/// The mathematical model of a message.
#[verifier::ext_equal]
pub struct MessageModel {
    pub header: DnsHeader,
    pub questions: Seq<QuestionModel>,
    pub answers: Seq<RecordModel>,
}

impl View for DnsQuestion {
    type V = QuestionModel;

    open spec fn view(&self) -> QuestionModel {
        QuestionModel { name: self.name@, q_type: self.q_type, q_class: self.q_class }
    }
}

impl View for ResourceRecord {
    type V = RecordModel;

    open spec fn view(&self) -> RecordModel {
        RecordModel {
            name: self.name@,
            q_type: self.q_type,
            q_class: self.q_class,
            ttl: self.ttl,
            data: self.data@,
        }
    }
}

/// The models of a sequence of questions.
pub open spec fn questions_view(s: Seq<DnsQuestion>) -> Seq<QuestionModel> {
    s.map_values(|q: DnsQuestion| q@)
}

/// The models of a sequence of answer records.
pub open spec fn records_view(s: Seq<ResourceRecord>) -> Seq<RecordModel> {
    s.map_values(|r: ResourceRecord| r@)
}

impl View for DnsMessage {
    type V = MessageModel;

    open spec fn view(&self) -> MessageModel {
        MessageModel {
            header: self.header,
            questions: questions_view(self.questions@),
            answers: records_view(self.answers@),
        }
    }
}

impl Clone for DnsQuestion {
    fn clone(&self) -> (r: Self)
        ensures
            r@ == self@,
    {
        let name = vstd::slice::slice_to_vec(self.name.as_slice());
        DnsQuestion { name, q_type: self.q_type, q_class: self.q_class }
    }
}

impl Clone for ResourceRecord {
    fn clone(&self) -> (r: Self)
        ensures
            r@ == self@,
    {
        let name = vstd::slice::slice_to_vec(self.name.as_slice());
        let data = vstd::slice::slice_to_vec(self.data.as_slice());
        ResourceRecord { name, data, q_type: self.q_type, q_class: self.q_class, ttl: self.ttl }
    }
}

impl Clone for DnsMessage {
    fn clone(&self) -> (r: Self)
        ensures
            r@ == self@,
    {
        let mut questions: Vec<DnsQuestion> = Vec::new();
        let mut i: usize = 0;
        while i < self.questions.len()
            invariant
                i <= self.questions.len(),
                questions@.len() == i as int,
                forall|j: int| 0 <= j < i ==> questions@[j]@ == self.questions@[j]@,
            decreases self.questions.len() - i,
        {
            questions.push(self.questions[i].clone());
            i = i + 1;
        }
        let mut answers: Vec<ResourceRecord> = Vec::new();
        let mut k: usize = 0;
        while k < self.answers.len()
            invariant
                k <= self.answers.len(),
                answers@.len() == k as int,
                forall|j: int| 0 <= j < k ==> answers@[j]@ == self.answers@[j]@,
            decreases self.answers.len() - k,
        {
            answers.push(self.answers[k].clone());
            k = k + 1;
        }
        proof {
            assert(questions_view(questions@) =~= questions_view(self.questions@));
            assert(records_view(answers@) =~= records_view(self.answers@));
        }
        DnsMessage { header: self.header, questions, answers }
    }
}

} // verus!
