//! The in-process model provider's decision logic: how a model name
//! resolves to a local file or a hub identifier, and how chat roles map.
//! Loading the model and running inference are transport concerns that
//! live with the caller.

use vstd::prelude::*;

use crate::strutil::{ends_with, ends_with_exec, rfind_slash};

verus! {

/// A provider failure, with its description.
pub enum ProviderError {
    /// Any failure this provider reports.
    Other(String),
}

/// Where a model name points.
pub enum ModelSource {
    /// A local model file: the directory holding it and its file name.
    LocalGguf { dir: String, filename: String },
    /// A model identifier to fetch from the hub.
    HuggingFace { id: String },
}

/// A chat participant's role.
#[derive(Clone, Copy, Debug, PartialEq, Eq, Structural)]
pub enum ChatRole {
    /// Instructions to the model.
    System,
    /// The human side of the conversation.
    User,
    /// The model's own earlier turns.
    Assistant,
}

/// The role a protocol string names; anything unrecognised is the user.
pub open spec fn role_named(s: Seq<char>) -> ChatRole {
    if s == "system"@ {
        ChatRole::System
    } else if s == "assistant"@ {
        ChatRole::Assistant
    } else {
        ChatRole::User
    }
}

/// Maps a role string to its role.
pub fn role_of(role: &str) -> (r: ChatRole)
    ensures
        r == role_named(role@),
{
    let owned = role.to_owned();
    let system = "system".to_owned();
    if owned.eq(&system) {
        return ChatRole::System;
    }
    let assistant = "assistant".to_owned();
    if owned.eq(&assistant) {
        return ChatRole::Assistant;
    }
    ChatRole::User
}

/// An in-process model provider, configured with a model name.
pub struct MistralRsProvider {
    model_name: String,
}

/// The suffix that marks a local model file.
pub open spec fn gguf_suffix() -> Seq<char> {
    ".gguf"@
}

/// The name resolves to a local file when it carries the file suffix and
/// such a file actually exists.
pub open spec fn resolves_locally(name: Seq<char>, file_exists: bool) -> bool {
    ends_with(name, gguf_suffix()) && file_exists
}

impl MistralRsProvider {
    /// The configured model name.
    pub closed spec fn model_name_spec(&self) -> Seq<char> {
        self.model_name@
    }

    /// Creates a provider for the named model.
    ///
    /// Model resolution is decided by `model_source`; actually loading the
    /// model is the caller's work.
    pub fn new(model_name: &str) -> (r: MistralRsProvider)
        ensures
            r.model_name_spec() == model_name@,
    {
        MistralRsProvider { model_name: model_name.to_owned() }
    }

    /// Decides where the configured model name points.
    ///
    /// A name ending in the model-file suffix, for which the caller found
    /// a file on disk, splits into the containing directory and the file
    /// name; any other name is a hub identifier.
    pub fn model_source(&self, local_file_exists: bool) -> (r: ModelSource)
        ensures
            !resolves_locally(self.model_name_spec(), local_file_exists) ==> (r matches
                ModelSource::HuggingFace { id } && id@ == self.model_name_spec()),
            resolves_locally(self.model_name_spec(), local_file_exists) ==> (r matches
                ModelSource::LocalGguf { dir, filename } && {
                ||| (dir@ == Seq::<char>::empty() && filename@ == self.model_name_spec() && (
                forall|i: int|
                    0 <= i < self.model_name_spec().len() ==> self.model_name_spec()[i] != '/'))
                ||| (exists|p: int|
                    {
                        &&& 0 <= p < self.model_name_spec().len()
                        &&& self.model_name_spec()[p] == '/'
                        &&& forall|i: int|
                            p < i < self.model_name_spec().len() ==> self.model_name_spec()[i]
                                != '/'
                        &&& dir@ == self.model_name_spec().take(p)
                        &&& filename@ == self.model_name_spec().skip(p + 1)
                    })
            }),
    {
        let is_local = ends_with_exec(self.model_name.as_str(), ".gguf") && local_file_exists;
        if !is_local {
            return ModelSource::HuggingFace { id: self.model_name.clone() };
        }
        match rfind_slash(self.model_name.as_str()) {
            None => ModelSource::LocalGguf {
                dir: String::new(),
                filename: self.model_name.clone(),
            },
            Some(p) => {
                let n = self.model_name.as_str().unicode_len();
                let dir = self.model_name.as_str().substring_char(0, p).to_owned();
                let filename = self.model_name.as_str().substring_char(p + 1, n).to_owned();
                ModelSource::LocalGguf { dir, filename }
            },
        }
    }

    /// Generating embeddings is not supported by this provider.
    pub fn embed(&self, text: &str, model: &str) -> (r: Result<Vec<i16>, ProviderError>)
        ensures
            r is Err,
    {
        let _ = text;
        let _ = model;
        Err(ProviderError::Other("embeddings are not supported by this provider".to_owned()))
    }
}

} // verus!
