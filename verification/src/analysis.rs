//! Enrichment of a transcript: what is sent to the text-analysis service and
//! how its answers are cleaned and laid out in the rendered page.

use vstd::prelude::*;
use vstd::string::*;

verus! {

/// The character that delimits a code fence.
pub open spec fn fence() -> char {
    '`'
}

/// `s` without one leading fence: three fence characters if `s` starts with
/// three, else one if it starts with one.
pub open spec fn without_leading_fence(s: Seq<char>) -> Seq<char> {
    if s.len() >= 3 && s[0] == fence() && s[1] == fence() && s[2] == fence() {
        s.skip(3)
    } else if s.len() >= 1 && s[0] == fence() {
        s.skip(1)
    } else {
        s
    }
}

/// `s` without one trailing fence: three fence characters if `s` ends with
/// three, else one if it ends with one.
pub open spec fn without_trailing_fence(s: Seq<char>) -> Seq<char> {
    let n = s.len() as int;
    if n >= 3 && s[n - 1] == fence() && s[n - 2] == fence() && s[n - 3] == fence() {
        s.take(n - 3)
    } else if n >= 1 && s[n - 1] == fence() {
        s.take(n - 1)
    } else {
        s
    }
}

/// What is left of an answer once its enclosing code fence is gone: the
/// leading fence is removed first, the trailing one from what remains.
pub open spec fn unfenced(s: Seq<char>) -> Seq<char> {
    without_trailing_fence(without_leading_fence(s))
}

/// Strips the code-fence markers that enclose `s`, if any.
pub fn remove_code_blocks(s: &str) -> (r: &str)
    ensures
        r@ == unfenced(s@),
{
    let n = s.unicode_len();
    let mut from: usize = 0;
    if n >= 3 && s.get_char(0) == '`' && s.get_char(1) == '`' && s.get_char(2) == '`' {
        from = 3;
    } else if n >= 1 && s.get_char(0) == '`' {
        from = 1;
    }
    let m = n - from;
    let mut to: usize = n;
    if m >= 3 && s.get_char(n - 1) == '`' && s.get_char(n - 2) == '`' && s.get_char(n - 3) == '`' {
        to = n - 3;
    } else if m >= 1 && s.get_char(n - 1) == '`' {
        to = n - 1;
    }
    proof {
        let head = without_leading_fence(s@);
        assert(head == s@.skip(from as int));
        assert(head.len() == m);
        assert(forall|i: int| 0 <= i < m ==> head[i] == s@[i + from]);
        assert(s@.subrange(from as int, to as int) =~= unfenced(s@));
    }
    s.substring_char(from, to)
}

/// The characters counted for one token of the service's input.
pub const CHARS_PER_TOKEN: usize = 4;

/// The tokens of transcript handed to the service at most.
pub const INPUT_TOKENS: usize = 1000;

/// The characters of transcript handed to the service at most.
pub const MAX_INPUT_CHARS: usize = INPUT_TOKENS * CHARS_PER_TOKEN;

/// The tokens the service may answer with at most.
pub const MAX_ANSWER_TOKENS: u16 = 512;

/// The model that is asked.
pub const MODEL: &'static str = "gpt-3.5-turbo";

/// The instruction that asks for a summary in prose.
pub const SUMMARY_INSTRUCTION: &'static str = "Describe and analyze what this data represents:";

/// The instruction that asks for a chart script.
pub const CHART_INSTRUCTION: &'static str =
    "Only respond with minified JS code as plain text, without comments and new lines, targeting getElementById(\"chart\"), using ECharts that visualizes a timeseries with following data:";

/// What every rendered page starts with.
pub const PAGE_HEAD: &'static str =
    "<!DOCTYPE html>\n<html lang=\"en\" style=\"height: 100%\">\n<head>\n  <meta charset=\"utf-8\">\n  <link rel=\"stylesheet\" href=\"//unpkg.com/carbon-components@10/css/carbon-components.min.css\">\n</head>\n<body style=\"height: 100%; margin: 0\">\n  <div id=\"chart\" style=\"height: 50%\"></div>\n  <script type=\"text/javascript\" src=\"https://fastly.jsdelivr.net/npm/echarts@5.4.2/dist/echarts.min.js\"></script>\n";

/// What stands before the chart script.
pub const CHART_OPEN: &'static str = "<script type=\"text/javascript\">";

/// What stands after the chart script.
pub const CHART_CLOSE: &'static str = "</script>";

/// What stands before the summary.
pub const SUMMARY_OPEN: &'static str = "<div><p>";

/// What stands after the summary.
pub const SUMMARY_CLOSE: &'static str = "</p></div>";

/// What stands before the transcript.
pub const TRANSCRIPT_OPEN: &'static str = "<div><code>";

/// What stands after the transcript and ends the page.
pub const PAGE_TAIL: &'static str = "</code></div></body></html>";

/// The first `max` characters of `text`, or all of it if it has no more.
pub open spec fn truncated(text: Seq<char>, max: nat) -> Seq<char> {
    if text.len() <= max {
        text
    } else {
        text.take(max as int)
    }
}

/// Cuts `text` down to its first `max_chars` characters.
pub fn truncate_chars(text: &str, max_chars: usize) -> (r: String)
    ensures
        r@ == truncated(text@, max_chars as nat),
{
    let n = text.unicode_len();
    if n <= max_chars {
        String::from_str(text)
    } else {
        String::from_str(text.substring_char(0, max_chars))
    }
}

/// One question to the text-analysis service.
#[derive(Debug, PartialEq, Eq)]
pub struct ChatRequest {
    /// The model to ask.
    pub model: String,
    /// The most tokens the answer may have.
    pub max_tokens: u16,
    /// The instruction, sent in the system role.
    pub instruction: String,
    /// The data, sent in the user role.
    pub content: String,
}

/// A question, to the contracts.
pub struct ChatRequestView {
    pub model: Seq<char>,
    pub max_tokens: u16,
    pub instruction: Seq<char>,
    pub content: Seq<char>,
}

impl View for ChatRequest {
    type V = ChatRequestView;

    open spec fn view(&self) -> ChatRequestView {
        ChatRequestView {
            model: self.model@,
            max_tokens: self.max_tokens,
            instruction: self.instruction@,
            content: self.content@,
        }
    }
}

/// The question that puts `instruction` before a transcript: the transcript
/// is cut down to `MAX_INPUT_CHARS` characters.
pub open spec fn request_of(instruction: Seq<char>, transcript: Seq<char>) -> ChatRequestView {
    ChatRequestView {
        model: MODEL@,
        max_tokens: MAX_ANSWER_TOKENS,
        instruction,
        content: truncated(transcript, MAX_INPUT_CHARS as nat),
    }
}

fn request(instruction: &str, transcript: &str) -> (r: ChatRequest)
    ensures
        r@ == request_of(instruction@, transcript@),
{
    ChatRequest {
        model: String::from_str(MODEL),
        max_tokens: MAX_ANSWER_TOKENS,
        instruction: String::from_str(instruction),
        content: truncate_chars(transcript, MAX_INPUT_CHARS),
    }
}

/// The question that asks for a summary of the transcript.
pub fn summary_request(transcript: &str) -> (r: ChatRequest)
    ensures
        r@ == request_of(SUMMARY_INSTRUCTION@, transcript@),
{
    request(SUMMARY_INSTRUCTION, transcript)
}

/// The question that asks for a script that charts the transcript.
pub fn chart_request(transcript: &str) -> (r: ChatRequest)
    ensures
        r@ == request_of(CHART_INSTRUCTION@, transcript@),
{
    request(CHART_INSTRUCTION, transcript)
}

/// The chart of a page: the service's script without its code fence, inside a
/// script element; nothing where the service gave no script.
pub open spec fn chart_of(script: Option<Seq<char>>) -> Seq<char> {
    match script {
        Some(answer) => CHART_OPEN@ + unfenced(answer) + CHART_CLOSE@,
        None => Seq::empty(),
    }
}

/// The summary of a page: the service's prose inside a paragraph; nothing
/// where the service gave none.
pub open spec fn summary_of(summary: Option<Seq<char>>) -> Seq<char> {
    match summary {
        Some(answer) => SUMMARY_OPEN@ + answer + SUMMARY_CLOSE@,
        None => Seq::empty(),
    }
}

/// The rendered page: head, chart, summary, and the transcript as it is.
pub open spec fn page_of(
    script: Option<Seq<char>>,
    summary: Option<Seq<char>>,
    transcript: Seq<char>,
) -> Seq<char> {
    PAGE_HEAD@ + chart_of(script) + summary_of(summary) + TRANSCRIPT_OPEN@ + transcript + PAGE_TAIL@
}

/// Lays out the rendered page for a transcript. `script` and `summary` are the
/// service's two answers; each is `None` where the service failed, and the
/// page then goes without it.
pub fn render_page(script: Option<&str>, summary: Option<&str>, transcript: &str) -> (page: String)
    ensures
        page@ == page_of(
            match script {
                Some(answer) => Some(answer@),
                None => None,
            },
            match summary {
                Some(answer) => Some(answer@),
                None => None,
            },
            transcript@,
        ),
{
    let mut page = String::from_str(PAGE_HEAD);
    if let Some(answer) = script {
        page.append(CHART_OPEN);
        page.append(remove_code_blocks(answer));
        page.append(CHART_CLOSE);
    }
    if let Some(answer) = summary {
        page.append(SUMMARY_OPEN);
        page.append(answer);
        page.append(SUMMARY_CLOSE);
    }
    page.append(TRANSCRIPT_OPEN);
    page.append(transcript);
    page.append(PAGE_TAIL);
    proof {
        let shown = page_of(
            match script {
                Some(answer) => Some(answer@),
                None => None,
            },
            match summary {
                Some(answer) => Some(answer@),
                None => None,
            },
            transcript@,
        );
        assert(page@ =~= shown);
    }
    page
}

/// Whatever the service answered or failed to answer, the page holds the
/// transcript unchanged: it stands right after what comes before it.
pub proof fn lemma_page_holds_transcript(
    script: Option<Seq<char>>,
    summary: Option<Seq<char>>,
    transcript: Seq<char>,
)
    ensures
        ({
            let page = page_of(script, summary, transcript);
            let at = (PAGE_HEAD@ + chart_of(script) + summary_of(summary) + TRANSCRIPT_OPEN@).len() as int;
            &&& at + transcript.len() <= page.len()
            &&& page.subrange(at, at + transcript.len()) == transcript
        }),
{
    let page = page_of(script, summary, transcript);
    let at = (PAGE_HEAD@ + chart_of(script) + summary_of(summary) + TRANSCRIPT_OPEN@).len() as int;
    assert(page.subrange(at, at + transcript.len()) =~= transcript);
}

/// Where the service answered nothing at all, the page is the head and the
/// transcript.
pub proof fn lemma_page_without_service(transcript: Seq<char>)
    ensures
        page_of(None, None, transcript) == PAGE_HEAD@ + TRANSCRIPT_OPEN@ + transcript + PAGE_TAIL@,
{
    assert(page_of(None, None, transcript) =~= PAGE_HEAD@ + TRANSCRIPT_OPEN@ + transcript
        + PAGE_TAIL@);
}

} // verus!
