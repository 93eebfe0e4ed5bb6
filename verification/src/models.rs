//! The records the ChatGPT backend sends back, as the client reads them.
use std::collections::HashMap;
use vstd::prelude::*;
use vstd::string::StringExecFns;

verus! {

/// The answer of the public-key endpoint.
#[derive(Debug)]
pub struct PublicKey {
    pub arkose_token: String,
}

/// One page of the user's conversations.
#[derive(Debug)]
pub struct Conversations {
    pub items: Vec<Item>,
    pub total: u32,
    pub limit: u32,
    pub offset: u32,
    pub has_missing_conversations: bool,
}

/// One conversation in a listing.
#[derive(Debug)]
pub struct Item {
    pub id: String,
    pub title: String,
}

#[derive(Debug)]
pub struct Author {
    pub metadata: HashMap<String, String>,
    pub name: Option<String>,
    pub role: String,
}

#[derive(Debug)]
pub struct Content {
    pub content_type: String,
    pub parts: Vec<String>,
}

#[derive(Debug)]
pub struct Metadata {
    pub parent_id: Option<String>,
    pub message_type: Option<String>,
    pub finish_details: Option<FinishDetails>,
    pub is_complete: Option<bool>,
    pub model_slug: Option<String>,
    pub timestamp_: Option<String>,
}

#[derive(Debug)]
pub struct FinishDetails {
    pub stop_tokens: Vec<i64>,
    pub type_field: String,
}

/// The line a listing shows for one conversation: its title, ` - `, its id.
pub open spec fn listing_line(item: Item) -> Seq<char> {
    item.title@ + " - "@ + item.id@
}

/// A listing line is the title, then ` - `, then the whole id, whatever
/// their lengths: the id can be read back from the line.
pub proof fn lemma_listing_line_parts(item: Item)
    ensures
        listing_line(item).len() == item.title@.len() + 3 + item.id@.len(),
        listing_line(item).take(item.title@.len() as int) == item.title@,
        listing_line(item).subrange(item.title@.len() as int, item.title@.len() + 3int) == seq![' ', '-', ' '],
        listing_line(item).skip(item.title@.len() + 3int) == item.id@,
{
    reveal_strlit(" - ");
    let n = item.title@.len() as int;
    let line = listing_line(item);
    assert(" - "@ =~= seq![' ', '-', ' ']);
    assert(line.take(n) =~= item.title@);
    assert(line.subrange(n, n + 3) =~= seq![' ', '-', ' ']);
    assert(line.skip(n + 3) =~= item.id@);
}

impl Conversations {
    /// The listing of the page, one line per conversation, in order.
    pub fn listing(&self) -> (lines: Vec<String>)
        ensures
            lines@.len() == self.items@.len(),
            forall|i: int|
                0 <= i < lines@.len() ==> #[trigger] lines@[i]@ == listing_line(self.items@[i]),
    {
        let mut lines: Vec<String> = Vec::new();
        let n = self.items.len();
        for i in 0..n
            invariant
                n == self.items@.len(),
                lines@.len() == i,
                forall|k: int|
                    0 <= k < i ==> #[trigger] lines@[k]@ == listing_line(self.items@[k]),
        {
            let item = &self.items[i];
            let mut line = item.title.clone();
            line.append(" - ");
            line.append(item.id.as_str());
            lines.push(line);
        }
        lines
    }
}

} // verus!
