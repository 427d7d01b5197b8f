//! The client side of the workspace assistant protocol: each operation
//! becomes a typed request. Carrying a request over the socket and reading
//! the streamed reply is the caller's transport concern, not this crate's.

use vstd::prelude::*;

use crate::types::string_eq_str;

verus! {

/// One request to the assistant service.
pub struct Request {
    /// The operation: `chat`, `edit`, `add`, `index` or `stats`.
    pub kind: String,
    /// The operation's payload.
    pub content: String,
    /// The working directory the operation refers to, if any.
    pub pwd: Option<String>,
}

/// Builds requests for the assistant service.
pub struct AiClient;

impl AiClient {
    /// A conversational query.
    pub fn chat(query: &str, pwd: Option<&str>) -> (r: Request)
        ensures
            r.kind@ == "chat"@,
            r.content@ == query@,
            pwd matches Some(p) ==> (r.pwd matches Some(s) && s@ == p@),
            pwd is None ==> r.pwd is None,
    {
        Request { kind: "chat".to_owned(), content: query.to_owned(), pwd: owned_opt(pwd) }
    }

    /// An edit instruction.
    pub fn edit(request: &str, pwd: Option<&str>) -> (r: Request)
        ensures
            r.kind@ == "edit"@,
            r.content@ == request@,
            pwd matches Some(p) ==> (r.pwd matches Some(s) && s@ == p@),
            pwd is None ==> r.pwd is None,
    {
        Request { kind: "edit".to_owned(), content: request.to_owned(), pwd: owned_opt(pwd) }
    }

    /// Adds a snippet to the knowledge base.
    pub fn add_knowledge(content: &str) -> (r: Request)
        ensures
            r.kind@ == "add"@,
            r.content@ == content@,
            r.pwd is None,
    {
        Request { kind: "add".to_owned(), content: content.to_owned(), pwd: None }
    }

    /// Indexes a directory into the knowledge base.
    pub fn index_directory(path: &str) -> (r: Request)
        ensures
            r.kind@ == "index"@,
            r.content@ == path@,
            r.pwd is None,
    {
        Request { kind: "index".to_owned(), content: path.to_owned(), pwd: None }
    }

    /// Asks for knowledge-base statistics.
    pub fn stats() -> (r: Request)
        ensures
            r.kind@ == "stats"@,
            r.content@ == Seq::<char>::empty(),
            r.pwd is None,
    {
        Request { kind: "stats".to_owned(), content: String::new(), pwd: None }
    }
}

/// One parsed chunk of a streamed reply.
pub struct ReplyChunk {
    /// The chunk's kind: `chunk`, `done` or `error`.
    pub kind: String,
    /// The text this chunk carries.
    pub content: String,
    /// The failure description, on an `error` chunk.
    pub error: Option<String>,
}

/// The outcome of a reply stream read from chunk `i` on, with `acc` the
/// text gathered so far: `chunk` pieces concatenate, a `done` chunk ends
/// the reply (its own content, if any, replaces the gathered text), an
/// `error` chunk fails with its description, and unknown kinds are
/// skipped.
pub open spec fn reply_outcome(chunks: Seq<ReplyChunk>, i: int, acc: Seq<char>) -> Result<
    Seq<char>,
    Seq<char>,
>
    decreases chunks.len() - i
        when 0 <= i <= chunks.len()
{
    if i >= chunks.len() {
        Ok(acc)
    } else if chunks[i].kind@ == "chunk"@ {
        reply_outcome(chunks, i + 1, acc + chunks[i].content@)
    } else if chunks[i].kind@ == "done"@ {
        if chunks[i].content@.len() == 0 {
            Ok(acc)
        } else {
            Ok(chunks[i].content@)
        }
    } else if chunks[i].kind@ == "error"@ {
        match chunks[i].error {
            Some(e) => Err(e@),
            None => Err("Unknown error"@),
        }
    } else {
        reply_outcome(chunks, i + 1, acc)
    }
}

/// Folds a streamed reply into its final text or its failure.
pub fn fold_reply(chunks: &Vec<ReplyChunk>) -> (r: Result<String, String>)
    ensures
        reply_outcome(chunks@, 0, Seq::<char>::empty()) matches Ok(t) ==> (r matches Ok(s) && s@
            == t),
        reply_outcome(chunks@, 0, Seq::<char>::empty()) matches Err(t) ==> (r matches Err(s) && s@
            == t),
{
    let mut acc = String::new();
    let mut i: usize = 0;
    while i < chunks.len()
        invariant
            0 <= i <= chunks@.len(),
            reply_outcome(chunks@, 0, Seq::<char>::empty()) == reply_outcome(
                chunks@,
                i as int,
                acc@,
            ),
        decreases chunks@.len() - i,
    {
        if string_eq_str(&chunks[i].kind, "chunk") {
            acc.append(chunks[i].content.as_str());
        } else if string_eq_str(&chunks[i].kind, "done") {
            if chunks[i].content.as_str().unicode_len() == 0 {
                return Ok(acc);
            }
            return Ok(chunks[i].content.clone());
        } else if string_eq_str(&chunks[i].kind, "error") {
            match &chunks[i].error {
                Some(e) => {
                    return Err(e.clone());
                },
                None => {
                    return Err("Unknown error".to_owned());
                },
            }
        }
        i = i + 1;
    }
    Ok(acc)
}

/// Copies an optional borrowed string into an owned one.
fn owned_opt(s: Option<&str>) -> (r: Option<String>)
    ensures
        s matches Some(p) ==> (r matches Some(o) && o@ == p@),
        s is None ==> r is None,
{
    match s {
        Some(p) => Some(p.to_owned()),
        None => None,
    }
}

} // verus!
