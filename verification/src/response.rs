//! The embeds the bot answers with.

use vstd::prelude::*;
use vstd::string::*;
use crate::text::concat_str;

verus! {

/// The colour of every embed the bot sends (burgundy), as `0xRRGGBB`.
pub const EMBED_COLOR: u32 = 0x650506;

/// An embed reply.
pub enum Embed {
    /// A refusal or failure, with its message.
    Error(String),
    /// A success, with its message.
    Success(String),
    /// Playback of the named station or media has started.
    NowPlaying(String),
    /// The answer to a ping.
    Pong,
    /// The bot is going offline.
    ShuttingDown,
}

/// Mathematical model of an `Embed`.
pub enum EmbedView {
    Error(Seq<char>),
    Success(Seq<char>),
    NowPlaying(Seq<char>),
    Pong,
    ShuttingDown,
}

impl View for Embed {
    type V = EmbedView;

    open spec fn view(&self) -> EmbedView {
        match self {
            Embed::Error(m) => EmbedView::Error(m@),
            Embed::Success(m) => EmbedView::Success(m@),
            Embed::NowPlaying(m) => EmbedView::NowPlaying(m@),
            Embed::Pong => EmbedView::Pong,
            Embed::ShuttingDown => EmbedView::ShuttingDown,
        }
    }
}

/// The title line of an embed: an emoji shortcode, a space, then its text.
pub open spec fn title_of(e: EmbedView) -> Seq<char> {
    match e {
        EmbedView::Error(m) => ":x: "@ + m,
        EmbedView::Success(m) => ":white_check_mark: "@ + m,
        EmbedView::NowPlaying(m) => ":notes: Now playing: "@ + m,
        EmbedView::Pong => ":ping_pong: Pong!"@,
        EmbedView::ShuttingDown => ":zzz: Shutting down!"@,
    }
}

impl Embed {
    /// The title line of this embed.
    pub fn title(&self) -> (out: String)
        ensures
            out@ == title_of(self@),
    {
        match self {
            Embed::Error(m) => concat_str(":x: ", m.as_str()),
            Embed::Success(m) => concat_str(":white_check_mark: ", m.as_str()),
            Embed::NowPlaying(m) => concat_str(":notes: Now playing: ", m.as_str()),
            Embed::Pong => String::from_str(":ping_pong: Pong!"),
            Embed::ShuttingDown => String::from_str(":zzz: Shutting down!"),
        }
    }
}

/// Every title, over all messages: an error reads ":x: " then its message, a success
/// ":white_check_mark: " then its message, playback ":notes: Now playing: " then what plays;
/// a pong and a shutdown have fixed titles.
pub proof fn lemma_titles(m: Seq<char>)
    ensures
        title_of(EmbedView::Error(m)) == ":x: "@ + m,
        title_of(EmbedView::Success(m)) == ":white_check_mark: "@ + m,
        title_of(EmbedView::NowPlaying(m)) == ":notes: Now playing: "@ + m,
        title_of(EmbedView::Pong) == ":ping_pong: Pong!"@,
        title_of(EmbedView::ShuttingDown) == ":zzz: Shutting down!"@,
{
}

} // verus!
