//! The outbound reply payload: a plain-text message or a text-plus-image
//! message, and its JSON wire form for the platform's reply endpoint.

use vstd::prelude::*;
use vstd::string::StringExecFns;
use crate::text::{escape_seq, json_escape};

verus! {

/// One reply to a chat event: a text message, or a text message together
/// with an image attachment.
pub enum Reply {
    Text { text: String },
    TextImage { text: String, image_url: String },
}

/// The mathematical content of a reply.
pub ghost enum ReplyView {
    Text { text: Seq<char> },
    TextImage { text: Seq<char>, image_url: Seq<char> },
}

impl View for Reply {
    type V = ReplyView;

    open spec fn view(&self) -> ReplyView {
        match self {
            Reply::Text { text } => ReplyView::Text { text: text@ },
            Reply::TextImage { text, image_url } => ReplyView::TextImage {
                text: text@,
                image_url: image_url@,
            },
        }
    }
}

/// The view of an optional string slice.
pub open spec fn opt_ref_str_view(o: Option<&str>) -> Option<Seq<char>> {
    match o {
        Some(s) => Some(s@),
        None => None,
    }
}

/// The JSON body posted to the platform's reply endpoint: a `messages` array
/// holding one text message and, for an image reply, one image message, then
/// the reply token when one is attached.
pub open spec fn reply_json(rep: ReplyView, tok: Option<Seq<char>>) -> Seq<char> {
    (match rep {
        ReplyView::Text { text } => (
            "{\"messages\":[{\"type\":\"text\",\"text\":\""@ + escape_seq(text) + "\"}"@
        ),
        ReplyView::TextImage { text, image_url } => (
            "{\"messages\":[{\"type\":\"text\",\"text\":\""@ + escape_seq(text) + "\"}"@
                + ",{\"type\":\"image\",\"originalContentUrl\":\""@ + escape_seq(image_url)
                + "\",\"previewImageUrl\":\""@ + escape_seq(image_url) + "\"}"@
        ),
    }) + "]"@ + (match tok {
        Some(t) => ",\"replyToken\":\""@ + escape_seq(t) + "\""@,
        None => Seq::<char>::empty(),
    }) + "}"@
}

impl Reply {
    /// Serializes the reply for the wire, attaching the reply token when one
    /// is given.
    pub fn to_json(&self, reply_token: Option<&str>) -> (r: String)
        ensures
            r@ == reply_json(self@, opt_ref_str_view(reply_token)),
    {
        let mut out = String::from_str("{\"messages\":[{\"type\":\"text\",\"text\":\"");
        match self {
            Reply::Text { text } => {
                let e = json_escape(text.as_str());
                out.append(e.as_str());
                out.append("\"}");
            },
            Reply::TextImage { text, image_url } => {
                let e = json_escape(text.as_str());
                out.append(e.as_str());
                out.append("\"}");
                out.append(",{\"type\":\"image\",\"originalContentUrl\":\"");
                let eu = json_escape(image_url.as_str());
                out.append(eu.as_str());
                out.append("\",\"previewImageUrl\":\"");
                out.append(eu.as_str());
                out.append("\"}");
            },
        }
        out.append("]");
        match reply_token {
            Some(t) => {
                out.append(",\"replyToken\":\"");
                let et = json_escape(t);
                out.append(et.as_str());
                out.append("\"");
            },
            None => {},
        }
        out.append("}");
        proof {
            assert(out@ =~= reply_json(self@, opt_ref_str_view(reply_token)));
        }
        out
    }
}

} // verus!
