//! The event handler: classifies one inbound chat event into a command, asks
//! the card store (or the static texts), and shapes what is sent back.

use vstd::prelude::*;
use crate::card::opt_str_view;
use crate::help::{get_help, help_text};
use crate::reply::{opt_ref_str_view, Reply, ReplyView};
use crate::tarot_info::{single_reply, titles_text, TarotEvent, TarotStore};
use crate::text::{parsed_usize, parses_as_usize, str_eq};
use crate::MAX_CARD_ID;

verus! {

/// The command one inbound event asks for.
#[derive(PartialEq, Eq, Structural, Debug, Clone, Copy)]
pub enum Command {
    /// Draw one card at random.
    Draw,
    /// List every loaded card's id and title.
    AllCards,
    /// Show the help text.
    Help,
    /// Show the card with this id.
    Single(usize),
    /// The event carried no text at all.
    TextOnly,
}

/// Whether `t` is one of the draw phrases.
pub open spec fn spec_is_draw_phrase(t: Seq<char>) -> bool {
    t == "抽卡"@ || t == "抽一張牌"@ || t == "抽一張卡"@ || t == "抽塔羅牌"@ || t == "抽塔羅"@
        || t == "抽一張塔羅牌"@ || t == "抽一張塔羅"@ || t == "抽一張"@
}

/// Whether `t` is the all-cards phrase.
pub open spec fn spec_is_all_cards_phrase(t: Seq<char>) -> bool {
    t == "所有卡片"@
}

/// Whether `t` is one of the help phrases.
pub open spec fn spec_is_help_phrase(t: Seq<char>) -> bool {
    t == "幫助"@ || t == "說明"@ || t == "指令"@ || t == "指令說明"@
}

/// The notice replied to an event that carries no text.
pub open spec fn text_only_notice() -> Seq<char> {
    "目前僅支援文字指令喔！"@
}

fn is_draw_phrase(msg: &str) -> (r: bool)
    ensures
        r == spec_is_draw_phrase(msg@),
{
    str_eq(msg, "抽卡") || str_eq(msg, "抽一張牌") || str_eq(msg, "抽一張卡") || str_eq(
        msg,
        "抽塔羅牌",
    ) || str_eq(msg, "抽塔羅") || str_eq(msg, "抽一張塔羅牌") || str_eq(msg, "抽一張塔羅")
        || str_eq(msg, "抽一張")
}

fn is_all_cards_phrase(msg: &str) -> (r: bool)
    ensures
        r == spec_is_all_cards_phrase(msg@),
{
    str_eq(msg, "所有卡片")
}

fn is_help_phrase(msg: &str) -> (r: bool)
    ensures
        r == spec_is_help_phrase(msg@),
{
    str_eq(msg, "幫助") || str_eq(msg, "說明") || str_eq(msg, "指令") || str_eq(msg, "指令說明")
}

/// How one optional message text classifies, first match winning: the draw
/// phrases, then the all-cards phrase, then the help phrases, then a numeral
/// naming a card id, then the help fallback; no text at all is its own case.
pub open spec fn classify_text(t: Option<Seq<char>>) -> Command {
    match t {
        None => Command::TextOnly,
        Some(s) => if spec_is_draw_phrase(s) {
            Command::Draw
        } else if spec_is_all_cards_phrase(s) {
            Command::AllCards
        } else if spec_is_help_phrase(s) {
            Command::Help
        } else if parses_as_usize(s) && parsed_usize(s) <= MAX_CARD_ID {
            Command::Single(parsed_usize(s) as usize)
        } else {
            Command::Help
        },
    }
}

/// Classifies one optional message text.
pub fn classify(text: Option<&str>) -> (c: Command)
    ensures
        c == classify_text(opt_ref_str_view(text)),
{
    match text {
        None => Command::TextOnly,
        Some(msg) => {
            if is_draw_phrase(msg) {
                Command::Draw
            } else if is_all_cards_phrase(msg) {
                Command::AllCards
            } else if is_help_phrase(msg) {
                Command::Help
            } else {
                match crate::text::parse_usize(msg) {
                    Some(v) => if v <= MAX_CARD_ID {
                        Command::Single(v)
                    } else {
                        Command::Help
                    },
                    None => Command::Help,
                }
            }
        },
    }
}

/// First match wins across the command categories: text that is a draw
/// phrase classifies as a draw, whatever else it could also be read as.
pub proof fn lemma_draw_phrase_wins(t: Seq<char>)
    requires
        spec_is_draw_phrase(t),
    ensures
        classify_text(Some(t)) == Command::Draw,
{
}

/// The notice for an event without text differs from the help text.
pub proof fn lemma_notice_distinct_from_help()
    ensures
        text_only_notice() != help_text(),
{
    reveal_strlit("目前僅支援文字指令喔！");
    reveal_strlit(
        "歡迎使用塔羅牌抽卡機器人！你可以輸入以下指令：
1. 輸入 0-77 的數字，抽取對應編號的塔羅牌。
2. 輸入「抽卡」或類似指令，隨機抽取一張塔羅牌。
3. 輸入「幫助」查看此說明。
4. 輸入「所有卡片」查看所有塔羅牌名稱。
祝你有美好的一天！",
    );
    assert(text_only_notice().len() != help_text().len());
}

/// One inbound chat event: its optional reply token and its optional message
/// text, as the webhook payload carries them.
pub struct InboundEvent {
    pub reply_token: Option<String>,
    pub text: Option<String>,
}

/// The dispatcher: owns the card store and answers inbound events.
pub struct TarotHandler {
    tarot_store: TarotStore,
}

/// The reply owed to one classified message text, given the store's state:
/// the notice for missing text, the help text for help commands, unmatched
/// text and missing cards, the full listing, a drawn card, or the named card.
pub open spec fn is_response(store: TarotStore, t: Option<Seq<char>>, rep: ReplyView) -> bool {
    match classify_text(t) {
        Command::TextOnly => rep == (ReplyView::Text { text: text_only_notice() }),
        Command::Help => rep == (ReplyView::Text { text: help_text() }),
        Command::AllCards => rep == (ReplyView::Text { text: titles_text(store.entries()) }),
        Command::Single(i) => if store.spec_get(i) is Some {
            rep == single_reply(store.spec_base_url(), store.spec_get(i)->0, false)
        } else {
            rep == (ReplyView::Text { text: help_text() })
        },
        Command::Draw => if store.entries().len() > 0 {
            store.is_random_draw(rep)
        } else {
            rep == (ReplyView::Text { text: help_text() })
        },
    }
}

impl TarotHandler {
    /// The card store this handler answers from.
    pub closed spec fn store(&self) -> TarotStore {
        self.tarot_store
    }

    /// Well-formed: the store is.
    pub open spec fn wf(&self) -> bool {
        self.store().wf()
    }

    /// Wraps a loaded card store.
    pub fn new(tarot_store: TarotStore) -> (r: Self)
        ensures
            r.store() == tarot_store,
    {
        TarotHandler { tarot_store }
    }

    /// Handles one webhook payload: of the events it carries, only the first
    /// is looked at; the result is the reply owed to that event, addressed to
    /// its reply token, or nothing where there is no event or no token.
    pub fn handle(&self, events: Vec<InboundEvent>) -> (r: Option<(String, Reply)>)
        requires
            self.wf(),
        ensures
            events@.len() == 0 ==> r is None,
            events@.len() > 0 ==> match events@[0].reply_token {
                None => r is None,
                Some(tok) => r matches Some((t, rep)) && t@ == tok@ && is_response(
                    self.store(),
                    opt_str_view(events@[0].text),
                    rep@,
                ),
            },
    {
        if events.len() == 0 {
            return None;
        }
        let first = &events[0];
        let text_ref: Option<&str> = match &first.text {
            Some(s) => Some(s.as_str()),
            None => None,
        };
        proof {
            assert(opt_ref_str_view(text_ref) == opt_str_view(events@[0].text));
        }
        let cmd = classify(text_ref);
        let body: Reply = match cmd {
            Command::Draw => match self.tarot_store.get_tarot_info(TarotEvent::Random) {
                Ok(rep) => rep,
                Err(_) => get_help(),
            },
            Command::AllCards => match self.tarot_store.get_tarot_info(TarotEvent::AllTitles) {
                Ok(rep) => rep,
                Err(_) => get_help(),
            },
            Command::Help => get_help(),
            Command::Single(i) => match self.tarot_store.get_tarot_info(TarotEvent::Single(i)) {
                Ok(rep) => rep,
                Err(_) => get_help(),
            },
            Command::TextOnly => TarotHandler::get_msg_body("目前僅支援文字指令喔！"),
        };
        match &first.reply_token {
            Some(tok) => Some((tok.clone(), body)),
            None => None,
        }
    }

    /// A plain-text reply body.
    pub fn get_msg_body(msg: &str) -> (r: Reply)
        ensures
            r@ == (ReplyView::Text { text: msg@ }),
    {
        Reply::Text { text: msg.to_owned() }
    }

    /// A text-plus-image reply body, both image variants showing `url`.
    pub fn get_image_body(msg: &str, url: &str) -> (r: Reply)
        ensures
            r@ == (ReplyView::TextImage { text: msg@, image_url: url@ }),
    {
        Reply::TextImage { text: msg.to_owned(), image_url: url.to_owned() }
    }
}

} // verus!
