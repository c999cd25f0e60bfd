use vstd::prelude::*;
use crate::object::ColorPair;

verus! {

/// Characters available on one line of the log box.
pub const LOG_WIDTH: usize = 58;

/// Messages kept once the log has grown past this many.
pub const LOG_CAPACITY: usize = 31;

/// One line of the log: coloured text parts, one colour pair per part.
pub struct LogMessage {
    pub parts: Vec<String>,
    pub colors: Vec<ColorPair>,
}

impl LogMessage {
    pub open spec fn wf(&self) -> bool {
        self.parts@.len() == self.colors@.len()
    }

    pub fn new() -> (r: LogMessage)
        ensures
            r.parts@.len() == 0,
            r.colors@.len() == 0,
    {
        LogMessage { parts: Vec::new(), colors: Vec::new() }
    }

    /// The message with one more part.
    pub fn add_part(self, part: String, color: ColorPair) -> (r: LogMessage)
        ensures
            r.parts@.len() == self.parts@.len() + 1,
            r.colors@ == self.colors@.push(color),
            forall|i: int| 0 <= i < self.parts@.len() ==> #[trigger] r.parts@[i] == self.parts@[i],
            r.parts@[self.parts@.len() as int] == part,
    {
        let mut m = self;
        m.parts.push(part);
        m.colors.push(color);
        m
    }
}

/// Total characters of a message.
pub open spec fn text_len(parts: Seq<String>) -> int
    decreases parts.len(),
{
    if parts.len() == 0 {
        0
    } else {
        text_len(parts.drop_last()) + parts.last()@.len()
    }
}

/// The game log, oldest message first.
pub type LogBuffer = Vec<LogMessage>;

/// A line of the log: one colour per part, and either a single part or shorter than
/// the log box.
pub open spec fn line_fits(m: LogMessage) -> bool {
    m.wf() && (m.parts@.len() <= 1 || text_len(m.parts@) < LOG_WIDTH)
}

pub trait LogBufferTrait {
    /// The number of messages held.
    spec fn message_count(&self) -> nat;

    /// Every message held is a line that fits.
    spec fn lines_fit(&self) -> bool;

    /// Splits `message` into words and wraps them into lines narrower than `LOG_WIDTH`
    /// characters (a single overlong word makes a line of its own), appending the lines;
    /// once the log holds more than `LOG_CAPACITY` messages the oldest is dropped.
    fn update_logs(&mut self, message: LogMessage)
        requires
            message.wf(),
        ensures
            final(self).message_count() + 1 >= old(self).message_count(),
            old(self).lines_fit() ==> final(self).lines_fit();
}

proof fn lemma_text_len_push(s: Seq<String>, x: String)
    ensures
        text_len(s.push(x)) == text_len(s) + x@.len(),
{
    assert(s.push(x).drop_last() =~= s);
}

pub open spec fn is_space(c: char) -> bool {
    c == ' ' || c == '\t' || c == '\n' || c == '\r'
}

/// The words of `s` (runs of characters between ASCII whitespace), each followed by one space.
fn words_of(s: &str) -> (r: Vec<String>)
    ensures
        forall|i: int| 0 <= i < r@.len() ==> (#[trigger] r@[i])@.len() >= 2,
{
    let n = s.unicode_len();
    let mut words: Vec<String> = Vec::new();
    let mut i: usize = 0;
    while i < n
        invariant
            n == s@.len(),
            i <= n,
            forall|k: int| 0 <= k < words@.len() ==> (#[trigger] words@[k])@.len() >= 2,
        decreases n - i,
    {
        if is_space_char(s.get_char(i)) {
            i = i + 1;
        } else {
            let start = i;
            while i < n && !is_space_char(s.get_char(i))
                invariant
                    n == s@.len(),
                    start < n,
                    start <= i <= n,
                decreases n - i,
            {
                i = i + 1;
            }
            if i > start {
                let mut w = String::from_str(s.substring_char(start, i));
                w.append(" ");
                proof {
                    reveal_strlit(" ");
                }
                words.push(w);
            } else {
                i = i + 1;
            }
        }
    }
    words
}

fn is_space_char(c: char) -> (r: bool)
    ensures
        r == is_space(c),
{
    c == ' ' || c == '\t' || c == '\n' || c == '\r'
}

/// Drops the last character of the last part (the space after the last word).
fn trim_last_part(m: LogMessage) -> (r: LogMessage)
    requires
        m.wf(),
    ensures
        r.wf(),
        r.parts@.len() == m.parts@.len(),
        text_len(r.parts@) <= text_len(m.parts@),
{
    let mut m = m;
    let ghost before = m.parts@;
    let n = m.parts.len();
    if n > 0 {
        let last = m.parts.remove(n - 1);
        let k = last.as_str().unicode_len();
        let cut = if k > 0 { k - 1 } else { 0 };
        let trimmed = String::from_str(last.as_str().substring_char(0, cut));
        m.parts.push(trimmed);
        proof {
            assert(before.drop_last() =~= before.remove(n - 1));
            lemma_text_len_push(before.drop_last(), trimmed);
            assert(m.parts@ =~= before.drop_last().push(trimmed));
        }
    }
    m
}

impl LogBufferTrait for Vec<LogMessage> {
    open spec fn message_count(&self) -> nat {
        self@.len()
    }

    open spec fn lines_fit(&self) -> bool {
        forall|i: int| 0 <= i < self@.len() ==> line_fits(#[trigger] self@[i])
    }

    fn update_logs(&mut self, message: LogMessage) {
        let mut groups: Vec<(String, ColorPair)> = Vec::new();
        let mut c: usize = 0;
        while c < message.parts.len()
            invariant
                message.wf(),
                c <= message.parts@.len(),
            decreases message.parts@.len() - c,
        {
            let words = words_of(message.parts[c].as_str());
            let mut w: usize = 0;
            while w < words.len()
                invariant
                    message.wf(),
                    c < message.parts@.len(),
                    w <= words@.len(),
                decreases words@.len() - w,
            {
                groups.push((words[w].clone(), message.colors[c]));
                w = w + 1;
            }
            c = c + 1;
        }
        let mut lines: Vec<LogMessage> = Vec::new();
        let mut wip = LogMessage::new();
        let mut line_len: usize = 0;
        let mut g: usize = 0;
        while g < groups.len()
            invariant
                wip.wf(),
                g <= groups@.len(),
                line_len <= LOG_WIDTH,
                (wip.parts@.len() == 0 && line_len == 0) || (wip.parts@.len() == 1 && (line_len == LOG_WIDTH
                    || text_len(wip.parts@) == line_len)) || (wip.parts@.len() >= 2 && text_len(wip.parts@)
                    == line_len && line_len < LOG_WIDTH),
                forall|i: int| 0 <= i < lines@.len() ==> line_fits(#[trigger] lines@[i]),
            decreases groups@.len() - g,
        {
            let (text, color) = (groups[g].0.clone(), groups[g].1);
            let len = text.as_str().unicode_len();
            let len = if len > LOG_WIDTH { LOG_WIDTH } else { len };
            let ghost full = text@.len();
            if line_len + len >= LOG_WIDTH && wip.parts.len() > 0 {
                line_len = len;
                let done = trim_last_part(wip);
                lines.push(done);
                wip = LogMessage::new().add_part(text, color);
                proof {
                    let e: Seq<String> = Seq::empty();
                    assert(wip.parts@ =~= e.push(text));
                    lemma_text_len_push(e, text);
                }
            } else {
                let ghost old_parts = wip.parts@;
                wip = wip.add_part(text, color);
                line_len = if line_len + len > LOG_WIDTH { LOG_WIDTH } else { line_len + len };
                proof {
                    assert(wip.parts@ =~= old_parts.push(text));
                    lemma_text_len_push(old_parts, text);
                }
            }
            g = g + 1;
        }
        if wip.parts.len() > 0 {
            let done = trim_last_part(wip);
            lines.push(done);
        }
        while lines.len() > 0
            invariant
                self@.len() >= old(self)@.len(),
                forall|i: int| 0 <= i < lines@.len() ==> line_fits(#[trigger] lines@[i]),
                old(self).lines_fit() ==> self.lines_fit(),
            decreases lines@.len(),
        {
            let line = lines.pop().unwrap();
            self.push(line);
        }
        if self.len() > LOG_CAPACITY {
            let ghost before = self@;
            self.remove(0);
            assert(forall|i: int| 0 <= i < self@.len() ==> self@[i] == before[i + 1]);
        }
    }
}

} // verus!
