//! The shapes of an oracle request and reply, and the reading of a reply's
//! content.  The wire copies, which carry the serialisation derives and the
//! request temperature, live outside the library and convert from and to
//! these.

use vstd::prelude::*;

verus! {

/// One message of a request.
pub struct LLMMsg {
    pub role: AllowedRole,
    pub content: String,
}

/// The roles a request message may carry.
pub enum AllowedRole {
    USER,
    SYSTEM,
}

/// A reply.
pub struct RespBody {
    pub id: String,
    pub model: String,
    pub choices: Vec<ChoiceObj>,
}

/// One choice of a reply.
pub struct ChoiceObj {
    pub index: usize,
    pub message: RespMsg,
    pub finish_reason: String,
}

/// The message inside a choice.
pub struct RespMsg {
    pub role: String,
    pub content: String,
}

impl RespBody {
    /// The content of the first choice; a reply with no choice at all broke
    /// the oracle's contract and is an error of that one query.
    pub fn get_content(&self) -> (r: Result<String, crate::DlError>)
        ensures
            self.choices@.len() == 0 <==> r is Err,
            r matches Err(e) ==> e is OracleContract,
            r matches Ok(c) ==> c@ == self.choices@[0].message.content@,
    {
        if self.choices.len() == 0 {
            return Err(crate::DlError::OracleContract);
        }
        Ok(self.choices[0].message.content.clone())
    }
}

/// The message list of one plain user query.
pub fn build_query_messages(query: &str) -> (v: Vec<LLMMsg>)
    ensures
        v@.len() == 1,
        v@[0].role is USER,
        v@[0].content@ == query@,
{
    let mut v: Vec<LLMMsg> = Vec::new();
    v.push(LLMMsg { role: AllowedRole::USER, content: query.to_owned() });
    v
}

} // verus!
