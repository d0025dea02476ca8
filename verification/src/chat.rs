//! The chat turn: what the model is sent, how its answer is read, and when
//! the history is compacted.
use vstd::prelude::*;
use vstd::string::StringExecFns;

use crate::media::{
    base64_len, base64_standard, encode_base64, image_media_type_of, sniff_mime_type,
    sniffed_mime_type, ImageBlock, ImageMediaType,
};
use crate::memory::remembering::occurs_in;
use crate::message::ConversationItem;
use crate::window::{window_split, BatchedSlidingWindow};

verus! {

/// Raw image data with its MIME type.
#[derive(Debug)]
pub struct ImageData {
    pub data: Vec<u8>,
    pub media_type: Option<String>,
}

impl ImageData {
    /// Downloaded image bytes, typed by what their contents look like.
    pub fn from_download(data: Vec<u8>) -> (img: ImageData)
        ensures
            img.data@ == data@,
            match img.media_type {
                Some(m) => sniffed_mime_type(data@) == Some(m@),
                None => sniffed_mime_type(data@) is None,
            },
    {
        let media_type = sniff_mime_type(data.as_slice());
        ImageData { data, media_type }
    }
}

/// A message from a chat platform, as the bot receives it. `sent_at` is the
/// time it was sent, in milliseconds since the Unix epoch (UTC).
#[derive(Debug)]
pub struct ChatInput {
    pub user_id: String,
    pub display_name: String,
    pub text: Option<String>,
    pub images: Vec<ImageData>,
    pub sent_at: i64,
    pub reply_to_user_id: Option<String>,
}

/// What the model is sent for one incoming message; `sent_at` as in
/// [`ChatInput`].
#[derive(Debug)]
pub struct MessagePayload {
    pub user_id: String,
    pub display_name: String,
    pub body: String,
    pub image_descriptions: Option<String>,
    pub sent_at: i64,
    pub reply_to_user_id: Option<String>,
    pub debouncing: bool,
}

/// A reply the bot sends back.
#[derive(Debug)]
pub struct Response {
    pub text: String,
}

/// What the model answers: skip the message, or reply to it.
#[derive(Debug)]
pub enum ResponsePayload {
    Skip,
    Reply(Response),
}

impl MessagePayload {
    /// The payload for `input`: its text (empty when it has none) as the body,
    /// with the image descriptions and the debouncing flag.
    pub fn from_input(input: ChatInput, image_descriptions: Option<String>, debouncing: bool) -> (p:
        MessagePayload)
        ensures
            p.user_id == input.user_id,
            p.display_name == input.display_name,
            match input.text {
                Some(t) => p.body == t,
                None => p.body@ == Seq::<char>::empty(),
            },
            p.image_descriptions == image_descriptions,
            p.sent_at == input.sent_at,
            p.reply_to_user_id == input.reply_to_user_id,
            p.debouncing == debouncing,
    {
        let body = match input.text {
            Some(t) => t,
            None => String::new(),
        };
        MessagePayload {
            user_id: input.user_id,
            display_name: input.display_name,
            body,
            image_descriptions,
            sent_at: input.sent_at,
            reply_to_user_id: input.reply_to_user_id,
            debouncing,
        }
    }
}

/// Whether a room is still within its debounce period: a reply was sent there
/// `since_last_reply` nanoseconds ago, less than `debounce` nanoseconds.
pub fn is_debouncing(since_last_reply: Option<u128>, debounce: u128) -> (r: bool)
    ensures
        r == match since_last_reply {
            Some(elapsed) => elapsed < debounce,
            None => false,
        },
{
    match since_last_reply {
        Some(elapsed) => elapsed < debounce,
        None => false,
    }
}

/// Whether a room is debouncing at time `now`: a reply was delivered there at
/// `last_reply`, less than `debounce` ago. Times are nanoseconds on a
/// monotonic clock; a `now` before `last_reply` counts as no time elapsed.
pub open spec fn debouncing_at(last_reply: Option<u128>, debounce: u128, now: u128) -> bool {
    match last_reply {
        Some(t) => (if now >= t {
            (now - t) as u128
        } else {
            0u128
        }) < debounce,
        None => false,
    }
}

/// The reply times of one room, which hold replies to at least `debounce`
/// apart.
pub struct ReplyClock {
    debounce: u128,
    last_reply: Option<u128>,
}

impl ReplyClock {
    pub closed spec fn spec_debounce(&self) -> u128 {
        self.debounce
    }

    pub closed spec fn spec_last_reply(&self) -> Option<u128> {
        self.last_reply
    }

    /// A room where nothing has been delivered yet.
    pub fn new(debounce: u128) -> (c: Self)
        ensures
            c.spec_debounce() == debounce,
            c.spec_last_reply() is None,
    {
        ReplyClock { debounce, last_reply: None }
    }

    /// Whether the room is debouncing at `now`.
    pub fn is_debouncing(&self, now: u128) -> (r: bool)
        ensures
            r == debouncing_at(self.spec_last_reply(), self.spec_debounce(), now),
    {
        let elapsed = match self.last_reply {
            Some(t) => Some(if now >= t { now - t } else { 0 }),
            None => None,
        };
        is_debouncing(elapsed, self.debounce)
    }

    /// The reply delivered at `now` for the model's `answer`: none while the
    /// room is debouncing, the answer otherwise. A delivered reply becomes the
    /// room's last reply.
    pub fn deliver(&mut self, now: u128, answer: Option<Response>) -> (sent: Option<Response>)
        ensures
            final(self).spec_debounce() == old(self).spec_debounce(),
            debouncing_at(old(self).spec_last_reply(), old(self).spec_debounce(), now) ==> sent is None,
            !debouncing_at(old(self).spec_last_reply(), old(self).spec_debounce(), now) ==> sent
                == answer,
            sent is Some ==> final(self).spec_last_reply() == Some(now),
            sent is None ==> final(self).spec_last_reply() == old(self).spec_last_reply(),
    {
        if self.is_debouncing(now) {
            return None;
        }
        match answer {
            Some(r) => {
                self.last_reply = Some(now);
                Some(r)
            },
            None => None,
        }
    }
}

/// A room debounces exactly while less than the debounce has elapsed since its
/// last reply, and never before its first: once `debounce` has elapsed the
/// room is free again.
pub proof fn lemma_debouncing_is_elapsed_below_debounce(last: u128, debounce: u128, now: u128)
    ensures
        !debouncing_at(None, debounce, now),
        last <= now ==> (debouncing_at(Some(last), debounce, now) <==> now - last < debounce),
        last <= now && now - last >= debounce ==> !debouncing_at(Some(last), debounce, now),
{
}

/// No reply is delivered while a room is debouncing: a reply delivered at
/// `now` after one delivered at `last` is at least `debounce` later.
pub proof fn lemma_replies_are_spaced(last: u128, now: u128, debounce: u128)
    requires
        !debouncing_at(Some(last), debounce, now),
        last <= now,
    ensures
        now - last >= debounce,
{
}

/// The part of the system prompt that tells the model who it is.
pub open spec fn identity_text(bot_user_id: Seq<char>, bot_display_name: Seq<char>) -> Seq<char> {
    "\n\n# Your Identity / 你的身份\n\nuser_id: "@ + bot_user_id + "\ndisplay_name: "@
        + bot_display_name
        + "\n\n当用户 @你、回复你（reply_to_user_id 为你自己的 user_id）、或通过名字提到你时，应当优先回应该消息。\n"@
}

/// The part of the system prompt that gives the input and output schemas.
pub open spec fn format_text(input_schema: Seq<char>, output_schema: Seq<char>) -> Seq<char> {
    "# Input Format / 输入格式\n\n用户消息以 JSON 格式发送，MessagePayload schema 如下：\n"@ + input_schema
        + "\n\n# Output Format / 输出格式\n\n你必须以 JSON 格式回复，ResponsePayload schema 如下（只返回 JSON，不要包含其他文字）：\n"@
        + output_schema
}

/// The system prompt: the base prompt, the bot's identity, then the formats.
pub open spec fn system_prompt_text(
    base: Seq<char>,
    bot_user_id: Seq<char>,
    bot_display_name: Seq<char>,
    format_section: Seq<char>,
) -> Seq<char> {
    base + identity_text(bot_user_id, bot_display_name) + "\n\n"@ + format_section
}

/// The base prompt: the prompt file's contents when one is configured, else
/// the inline prompt, else the built-in default.
pub fn base_prompt(from_file: Option<String>, inline: Option<String>, default: &str) -> (r: String)
    ensures
        match from_file {
            Some(f) => r == f,
            None => match inline {
                Some(i) => r == i,
                None => r@ == default@,
            },
        },
{
    match from_file {
        Some(f) => f,
        None => match inline {
            Some(i) => i,
            None => String::from_str(default),
        },
    }
}

/// The section of the system prompt that gives the JSON schemas of the
/// message payload and of the response payload.
pub fn format_section(input_schema: &str, output_schema: &str) -> (r: String)
    ensures
        r@ == format_text(input_schema@, output_schema@),
{
    String::from_str("# Input Format / 输入格式\n\n用户消息以 JSON 格式发送，MessagePayload schema 如下：\n")
        .concat(input_schema)
        .concat("\n\n# Output Format / 输出格式\n\n你必须以 JSON 格式回复，ResponsePayload schema 如下（只返回 JSON，不要包含其他文字）：\n")
        .concat(output_schema)
}

/// The system prompt for a bot: the base prompt, an identity section naming
/// the bot, and the format section.
pub fn system_prompt(base: String, bot_user_id: &str, bot_display_name: &str, format_section: &str) -> (r:
    String)
    ensures
        r@ == system_prompt_text(base@, bot_user_id@, bot_display_name@, format_section@),
{
    let mut prompt = base;
    prompt.append("\n\n# Your Identity / 你的身份\n\nuser_id: ");
    prompt.append(bot_user_id);
    prompt.append("\ndisplay_name: ");
    prompt.append(bot_display_name);
    prompt.append(
        "\n\n当用户 @你、回复你（reply_to_user_id 为你自己的 user_id）、或通过名字提到你时，应当优先回应该消息。\n",
    );
    prompt.append("\n\n");
    prompt.append(format_section);
    prompt
}

/// The system prompt opens with the base prompt, ends with the format section,
/// and names the bot between them: `user_id: <id>` on one line and
/// `display_name: <name>` on the next.
pub proof fn lemma_system_prompt_names_the_bot(
    base: Seq<char>,
    bot_user_id: Seq<char>,
    bot_display_name: Seq<char>,
    format_section: Seq<char>,
)
    ensures
        ({
            let p = system_prompt_text(base, bot_user_id, bot_display_name, format_section);
            &&& p.len() >= base.len() + format_section.len()
            &&& p.take(base.len() as int) == base
            &&& p.skip(p.len() - format_section.len()) == format_section
            &&& occurs_in(
                "user_id: "@ + bot_user_id + "\ndisplay_name: "@ + bot_display_name,
                p,
            )
        }),
{
    let p = system_prompt_text(base, bot_user_id, bot_display_name, format_section);
    let head = "\n\n# Your Identity / 你的身份\n\n"@;
    let x = "user_id: "@ + bot_user_id + "\ndisplay_name: "@ + bot_display_name;
    let tail = "\n\n当用户 @你、回复你（reply_to_user_id 为你自己的 user_id）、或通过名字提到你时，应当优先回应该消息。\n"@
        + "\n\n"@ + format_section;
    reveal_strlit("\n\n# Your Identity / 你的身份\n\nuser_id: ");
    reveal_strlit("\n\n# Your Identity / 你的身份\n\n");
    reveal_strlit("user_id: ");
    assert("\n\n# Your Identity / 你的身份\n\nuser_id: "@ =~= head + "user_id: "@);
    assert(p =~= base + head + x + tail);
    assert(p.take(base.len() as int) =~= base);
    assert(p.skip(p.len() - format_section.len()) =~= format_section);
    let off: int = (base.len() + head.len()) as int;
    assert(p.subrange(off, off + x.len()) =~= x);
}

/// The instruction sent back to the model when its answer was not valid JSON.
pub open spec fn retry_prompt() -> Seq<char> {
    "Your response was not valid JSON. Reply with valid JSON matching the ResponsePayload schema."@
}

/// The next prompt after an answer that failed to parse with `error`.
pub fn retry_payload(error: &str) -> (r: String)
    ensures
        r@ == retry_prompt() + "\nError message: "@ + error@,
{
    String::from_str(
        "Your response was not valid JSON. Reply with valid JSON matching the ResponsePayload schema.",
    ).concat("\nError message: ").concat(error)
}

/// The model's answer as read: a reply, a skip, or text that did not parse,
/// with the parser's error message.
pub enum ParsedResponse {
    Reply(Response),
    Skip,
    Invalid(String),
}

/// What to do after an answer: finish with a reply (or none), or prompt again.
pub enum ReplyStep {
    Done(Option<Response>),
    Retry(String),
}

/// The prompts made so far for one incoming message, out of at most
/// `max_retries`.
pub struct ReplyAttempts {
    max_retries: u32,
    made: u32,
}

impl ReplyAttempts {
    pub closed spec fn spec_max_retries(&self) -> nat {
        self.max_retries as nat
    }

    pub closed spec fn spec_made(&self) -> nat {
        self.made as nat
    }

    /// Never more prompts than allowed.
    pub closed spec fn wf(&self) -> bool {
        self.made <= self.max_retries
    }

    pub fn new(max_retries: u32) -> (a: Self)
        ensures
            a.wf(),
            a.spec_max_retries() == max_retries,
            a.spec_made() == 0,
    {
        ReplyAttempts { max_retries, made: 0 }
    }

    /// Whether another prompt may be made.
    pub fn may_prompt(&self) -> (r: bool)
        ensures
            r == (self.spec_made() < self.spec_max_retries()),
    {
        self.made < self.max_retries
    }

    /// The number of prompts made.
    pub fn made(&self) -> (r: u32)
        ensures
            r == self.spec_made(),
    {
        self.made
    }

    /// Counts one more prompt, whose answer read as `parsed`, and says what
    /// follows: a reply or a skip ends the turn; an unparsable answer is met
    /// with the retry instruction and its error.
    pub fn after_answer(&mut self, parsed: ParsedResponse) -> (step: ReplyStep)
        requires
            old(self).spec_made() < old(self).spec_max_retries(),
        ensures
            final(self).spec_made() == old(self).spec_made() + 1,
            final(self).spec_max_retries() == old(self).spec_max_retries(),
            final(self).wf(),
            final(self).spec_made() <= final(self).spec_max_retries(),
            match parsed {
                ParsedResponse::Reply(r) => step == ReplyStep::Done(Some(r)),
                ParsedResponse::Skip => step == ReplyStep::Done(None),
                ParsedResponse::Invalid(e) => step matches ReplyStep::Retry(p) && p@ == retry_prompt()
                    + "\nError message: "@ + e@,
            },
    {
        self.made = self.made + 1;
        match parsed {
            ParsedResponse::Reply(r) => ReplyStep::Done(Some(r)),
            ParsedResponse::Skip => ReplyStep::Done(None),
            ParsedResponse::Invalid(e) => ReplyStep::Retry(retry_payload(e.as_str())),
        }
    }
}

/// Whether the history must be compacted before the next prompt: it holds at
/// least a full window plus one batch.
pub fn needs_compaction(window: &BatchedSlidingWindow, count: usize) -> (r: bool)
    requires
        window.spec_window_size() + window.spec_batch_size() <= usize::MAX,
    ensures
        r == (count >= window.spec_window_size() + window.spec_batch_size()),
{
    count >= window.window_size() + window.batch_size()
}

/// The compacted history: the summary, then the messages the window kept.
pub fn compacted_history<T>(summary: T, kept: Vec<T>) -> (r: Vec<T>)
    ensures
        r@ == seq![summary] + kept@,
{
    let mut r = kept;
    r.insert(0, summary);
    proof {
        assert(r@ =~= seq![summary] + kept@);
    }
    r
}

/// Compaction is due only when it removes something: a history of at least a
/// window plus a batch demotes at least a batch, so the summary and the kept
/// messages together are never more than the history was.
pub proof fn lemma_compaction_never_grows<T: ConversationItem>(messages: Seq<T>, window: nat, batch: nat)
    requires
        batch > 0,
        messages.len() >= window + batch,
    ensures
        window_split(messages, window, batch).1.len() >= batch,
        window_split(messages, window, batch).0.len() + 1 <= messages.len(),
{
    let excess = (messages.len() - window) as nat;
    assert((excess / batch) * batch >= batch) by (nonlinear_arith)
        requires
            excess >= batch,
            batch > 0,
    ;
    assert((excess / batch) * batch <= excess) by (nonlinear_arith)
        requires
            batch > 0,
    ;
}

/// What to do with a conversation's history before the next prompt: keep it as
/// it is, or compact the demoted messages and keep the rest.
pub enum CompactionPlan<T> {
    Keep(Vec<T>),
    Compact { kept: Vec<T>, demoted: Vec<T> },
}

impl<T> CompactionPlan<T> {
    /// The messages that stay as they are.
    pub open spec fn kept_seq(&self) -> Seq<T> {
        match self {
            CompactionPlan::Keep(v) => v@,
            CompactionPlan::Compact { kept, .. } => kept@,
        }
    }

    /// The messages to summarise (none when the history is kept).
    pub open spec fn demoted_seq(&self) -> Seq<T> {
        match self {
            CompactionPlan::Keep(_) => Seq::empty(),
            CompactionPlan::Compact { demoted, .. } => demoted@,
        }
    }
}

/// The plan for a loaded history: a history that failed to load is treated as
/// empty; one shorter than a window plus a batch is kept; a longer one is split
/// by the window into kept and demoted messages.
pub fn plan_compaction<T: ConversationItem>(window: &BatchedSlidingWindow, loaded: Option<Vec<T>>) -> (plan:
    CompactionPlan<T>)
    requires
        window.spec_window_size() + window.spec_batch_size() <= usize::MAX,
        window.spec_batch_size() > 0 || match loaded {
            Some(m) => m@.len() < window.spec_window_size(),
            None => true,
        },
    ensures
        match loaded {
            None => plan is Keep && plan.kept_seq() == Seq::<T>::empty(),
            Some(m) => if m@.len() < window.spec_window_size() + window.spec_batch_size() {
                plan is Keep && plan.kept_seq() == m@
            } else {
                &&& plan is Compact
                &&& (plan.kept_seq(), plan.demoted_seq()) == window_split(
                    m@,
                    window.spec_window_size(),
                    window.spec_batch_size(),
                )
            },
        },
{
    match loaded {
        None => CompactionPlan::Keep(Vec::new()),
        Some(messages) => {
            if !needs_compaction(window, messages.len()) {
                CompactionPlan::Keep(messages)
            } else {
                let (kept, demoted) = window.apply_with_demoted(messages);
                CompactionPlan::Compact { kept, demoted }
            }
        },
    }
}

/// The history after a compaction attempt, and whether to write it back: with
/// a summary, the summary followed by the kept messages, to be written; when
/// the summariser failed, the kept messages alone, leaving the file as it was.
pub fn after_compaction<T>(kept: Vec<T>, summary: Option<T>) -> (r: (Vec<T>, bool))
    ensures
        match summary {
            Some(sm) => r.0@ == seq![sm] + kept@ && r.1,
            None => r.0@ == kept@ && !r.1,
        },
{
    match summary {
        Some(sm) => (compacted_history(sm, kept), true),
        None => (kept, false),
    }
}

/// The decimal digits of `n`.
pub open spec fn decimal(n: nat) -> Seq<char>
    decreases n,
{
    if n < 10 {
        seq![digit_char(n)]
    } else {
        decimal(n / 10) + seq![digit_char(n % 10)]
    }
}

pub open spec fn digit_char(d: nat) -> char {
    if d == 0 {
        '0'
    } else if d == 1 {
        '1'
    } else if d == 2 {
        '2'
    } else if d == 3 {
        '3'
    } else if d == 4 {
        '4'
    } else if d == 5 {
        '5'
    } else if d == 6 {
        '6'
    } else if d == 7 {
        '7'
    } else if d == 8 {
        '8'
    } else {
        '9'
    }
}

fn digit_str(d: u32) -> (r: &'static str)
    requires
        d < 10,
    ensures
        r@ == seq![digit_char(d as nat)],
{
    proof {
        reveal_strlit("0");
        reveal_strlit("1");
        reveal_strlit("2");
        reveal_strlit("3");
        reveal_strlit("4");
        reveal_strlit("5");
        reveal_strlit("6");
        reveal_strlit("7");
        reveal_strlit("8");
        reveal_strlit("9");
    }
    if d == 0 {
        "0"
    } else if d == 1 {
        "1"
    } else if d == 2 {
        "2"
    } else if d == 3 {
        "3"
    } else if d == 4 {
        "4"
    } else if d == 5 {
        "5"
    } else if d == 6 {
        "6"
    } else if d == 7 {
        "7"
    } else if d == 8 {
        "8"
    } else {
        "9"
    }
}

/// `n` written in decimal, as `u32`'s `Display` writes it.
pub fn decimal_string(n: u32) -> (r: String)
    ensures
        r@ == decimal(n as nat),
    decreases n,
{
    if n < 10 {
        String::from_str(digit_str(n))
    } else {
        let head = decimal_string(n / 10);
        head.concat(digit_str(n % 10))
    }
}

/// The number that a string of decimal digits reads as.
pub open spec fn digits_value(s: Seq<char>) -> int
    decreases s.len(),
{
    if s.len() == 0 {
        0
    } else {
        digits_value(s.drop_last()) * 10 + (s.last() as u32 - '0' as u32)
    }
}

/// Each character of `s` is a decimal digit.
pub open spec fn all_digits(s: Seq<char>) -> bool {
    forall|i: int| 0 <= i < s.len() ==> '0' <= #[trigger] s[i] <= '9'
}

proof fn lemma_digit_char_value(d: nat)
    requires
        d < 10,
    ensures
        '0' <= digit_char(d) <= '9',
        digit_char(d) as u32 - '0' as u32 == d,
{
}

/// `n` written in decimal reads back as `n`: it is a non-empty string of
/// digits whose value is `n`, and it opens with `0` only when `n` is zero.
pub proof fn lemma_decimal_reads_back(n: nat)
    ensures
        decimal(n).len() > 0,
        all_digits(decimal(n)),
        digits_value(decimal(n)) == n,
        decimal(n)[0] == '0' <==> n == 0,
    decreases n,
{
    if n < 10 {
        lemma_digit_char_value(n);
        assert(decimal(n).drop_last() =~= Seq::<char>::empty());
        assert(digits_value(Seq::<char>::empty()) == 0);
        assert(digits_value(decimal(n)) == digits_value(decimal(n).drop_last()) * 10 + (decimal(
            n,
        ).last() as u32 - '0' as u32));
    } else {
        lemma_digit_char_value(n % 10);
        lemma_decimal_reads_back(n / 10);
        let head = decimal(n / 10);
        let d: nat = n % 10;
        assert(decimal(n).drop_last() =~= head);
        assert(decimal(n)[0] == head[0]);
        assert(all_digits(decimal(n))) by {
            assert forall|i: int| 0 <= i < decimal(n).len() implies '0' <= #[trigger] decimal(
                n,
            )[i] <= '9' by {
                if i < head.len() {
                    assert(decimal(n)[i] == head[i]);
                }
            }
        }
        assert(decimal(n).last() == digit_char(d));
        assert(digits_value(decimal(n)) == digits_value(head) * 10 + (digit_char(d) as u32
            - '0' as u32));
        assert((n / 10) * 10 + d == n);
    }
}

/// The error when every allowed prompt got an answer that did not parse.
pub fn exhausted_message(max_retries: u32, room_id: &str) -> (r: String)
    ensures
        r@ == "all "@ + decimal(max_retries as nat) + " retries exhausted for room "@ + room_id@,
{
    String::from_str("all ").concat(decimal_string(max_retries).as_str()).concat(
        " retries exhausted for room ",
    ).concat(room_id)
}

/// Each image block is the image's base64 text with the media type its MIME
/// type names.
pub open spec fn prepared_from(image: ImageData, block: ImageBlock) -> bool {
    &&& block.data_base64@ == base64_standard(image.data@)
    &&& block.media_type == match image.media_type {
        Some(m) => image_media_type_of(m@),
        None => None,
    }
}

/// The images of a message as the image model receives them, in order; none
/// when the message has no images, so that no description is asked for.
pub fn prepare_images(images: &Vec<ImageData>) -> (r: Option<Vec<ImageBlock>>)
    requires
        forall|i: int| 0 <= i < images@.len() ==> base64_len(#[trigger] images@[i].data@.len()) <= usize::MAX,
    ensures
        images@.len() == 0 ==> r is None,
        images@.len() > 0 ==> (r matches Some(blocks) && blocks@.len() == images@.len() && forall|
            i: int,
        | 0 <= i < images@.len() ==> prepared_from(#[trigger] images@[i], blocks@[i])),
{
    if images.len() == 0 {
        return None;
    }
    let mut r: Vec<ImageBlock> = Vec::new();
    let mut i: usize = 0;
    while i < images.len()
        invariant
            i <= images@.len(),
            r@.len() == i,
            forall|j: int| 0 <= j < images@.len() ==> base64_len(#[trigger] images@[j].data@.len()) <= usize::MAX,
            forall|j: int| 0 <= j < i ==> prepared_from(#[trigger] images@[j], r@[j]),
        decreases images@.len() - i,
    {
        let img = &images[i];
        let data_base64 = encode_base64(img.data.as_slice());
        let media_type = match &img.media_type {
            Some(m) => ImageMediaType::from_mime_type(m.as_str()),
            None => None,
        };
        r.push(ImageBlock { data_base64, media_type });
        i += 1;
    }
    Some(r)
}

} // verus!
