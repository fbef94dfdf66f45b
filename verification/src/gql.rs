//! GraphQL responses: data is handed out only when the server reports no errors.
use vstd::prelude::*;

use crate::text::{join, joined, texts};

verus! {

/// One error reported by the GraphQL server.
pub struct GraphqlError {
    pub message: String,
}

/// A GraphQL response body.
pub struct Response {
    pub data: Option<serde_json::Value>,
    pub errors: Vec<GraphqlError>,
}

/// Why a response gives no data.
pub enum GqlError {
    /// The server reported errors; `messages` joins them with "; ".
    Graphql { messages: String },
    /// The response has neither errors nor data.
    NoData,
}

/// The messages of a sequence of GraphQL errors.
pub open spec fn error_messages(errors: Seq<GraphqlError>) -> Seq<Seq<char>> {
    errors.map_values(|e: GraphqlError| e.message@)
}

impl Response {
    /// The data of the response. Errors reported by the server are refused even when
    /// data is present.
    pub fn into_data(self) -> (r: Result<serde_json::Value, GqlError>)
        ensures
            self.errors@.len() > 0 ==> (r matches Err(GqlError::Graphql { messages })
                && messages@ == joined(error_messages(self.errors@), "; "@)),
            self.errors@.len() == 0 ==> match self.data {
                Some(v) => r == Ok::<serde_json::Value, GqlError>(v),
                None => r matches Err(GqlError::NoData),
            },
    {
        if self.errors.len() > 0 {
            let mut messages: Vec<String> = Vec::new();
            let n = self.errors.len();
            let mut i: usize = 0;
            while i < n
                invariant
                    n == self.errors@.len(),
                    i <= n,
                    texts(messages@) =~= error_messages(self.errors@).take(i as int),
                decreases n - i,
            {
                let ghost before = messages@;
                messages.push(self.errors[i].message.clone());
                assert(texts(messages@) =~= texts(before).push(self.errors@[i as int].message@));
                assert(error_messages(self.errors@).take(i + 1) =~= error_messages(
                    self.errors@,
                ).take(i as int).push(self.errors@[i as int].message@));
                i = i + 1;
            }
            assert(error_messages(self.errors@).take(n as int) =~= error_messages(self.errors@));
            return Err(GqlError::Graphql { messages: join(&messages, "; ") });
        }
        match self.data {
            Some(v) => Ok(v),
            None => Err(GqlError::NoData),
        }
    }
}

impl GqlError {
    /// The text of the error: "GraphQL: " and the messages, or "GraphQL returned no data".
    pub fn message(&self) -> (r: String)
        ensures
            match self {
                GqlError::Graphql { messages } => r@ == "GraphQL: "@ + messages@,
                GqlError::NoData => r@ == "GraphQL returned no data"@,
            },
    {
        match self {
            GqlError::Graphql { messages } => {
                let mut text = "GraphQL: ".to_owned();
                text.append(messages.as_str());
                text
            },
            GqlError::NoData => "GraphQL returned no data".to_owned(),
        }
    }
}

} // verus!
