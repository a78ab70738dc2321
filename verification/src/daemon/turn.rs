//! One chat turn: the daemon's server-sent event stream is cut into events,
//! and each event decides what the front end is shown and what is sent back
//! to the daemon. Text is relayed; a `tool_execute` runs a local tool and
//! replies with its result; a permission request is declined.

use vstd::prelude::*;
use vstd::utf8::{decode_utf8, valid_utf8};
use crate::daemon::tool_render::{ToolArgs, detail, detail_text, preview, preview_text};
use crate::daemon::wire::UiEvent;
use crate::text::{push_char, push_str, str_eq, to_string};

verus! {

broadcast use vstd::string::group_string_axioms;

/// `String::from_utf8_lossy` of `bytes`: the text they encode, with every
/// invalid sequence replaced by U+FFFD.
pub uninterp spec fn lossy_text(bytes: Seq<u8>) -> Seq<char>;

/// `String::from_utf8_lossy`; for valid UTF-8 it is the decoded text, as its
/// documentation says.
#[verifier::external_body]
pub(crate) fn lossy(bytes: &[u8]) -> (r: String)
    ensures
        r@ == lossy_text(bytes@),
        valid_utf8(bytes@) ==> r@ == decode_utf8(bytes@),
{
    String::from_utf8_lossy(bytes).into_owned()
}

/// `s` without its trailing carriage returns.
pub open spec fn trim_cr(s: Seq<char>) -> Seq<char>
    decreases s.len(),
{
    if s.len() > 0 && s.last() == '\r' {
        trim_cr(s.drop_last())
    } else {
        s
    }
}

/// The data lines joined by line feeds.
pub open spec fn join_lines(data: Seq<Seq<char>>) -> Seq<char>
    decreases data.len(),
{
    if data.len() == 0 {
        Seq::empty()
    } else if data.len() == 1 {
        data[0]
    } else {
        join_lines(data.drop_last()) + seq!['\n'] + data.last()
    }
}

/// The decoder state: the bytes of the unfinished line, the data lines of
/// the unfinished event, and the events so far.
pub type SseState = (Seq<u8>, Seq<Seq<char>>, Seq<Seq<char>>);

/// One finished line: a blank line ends the event (when it has data); a
/// `data:` line adds its value (one leading space dropped); comments (`:`),
/// `id:` and `event:` lines are ignored.
pub open spec fn sse_line(st: SseState, raw: Seq<u8>) -> SseState {
    let line = trim_cr(lossy_text(raw));
    if line.len() == 0 {
        if st.1.len() == 0 {
            (Seq::empty(), st.1, st.2)
        } else {
            (Seq::empty(), Seq::empty(), st.2.push(join_lines(st.1)))
        }
    } else if line.len() >= 5 && line.take(5) == "data:"@ {
        let d = line.skip(5);
        let v = if d.len() > 0 && d[0] == ' ' {
            d.skip(1)
        } else {
            d
        };
        (Seq::empty(), st.1.push(v), st.2)
    } else {
        (Seq::empty(), st.1, st.2)
    }
}

/// One byte: a line feed finishes the line (cutting bytes at line feeds
/// keeps multi-byte characters whole, since no UTF-8 continuation byte is
/// a line feed); any other byte extends it.
pub open spec fn sse_byte(st: SseState, b: u8) -> SseState {
    if b == 10 {
        sse_line(st, st.0)
    } else {
        (st.0.push(b), st.1, st.2)
    }
}

/// The decoder state after the bytes `bs`.
pub open spec fn sse_after(bs: Seq<u8>) -> SseState
    decreases bs.len(),
{
    if bs.len() == 0 {
        (Seq::empty(), Seq::empty(), Seq::empty())
    } else {
        sse_byte(sse_after(bs.drop_last()), bs.last())
    }
}

/// Cuts a server-sent event stream into events' data.
pub struct SseDecoder {
    line: Vec<u8>,
    data: Vec<String>,
    seen: Ghost<Seq<u8>>,
    count: Ghost<nat>,
}

pub open spec fn texts(v: Seq<String>) -> Seq<Seq<char>> {
    v.map_values(|s: String| s@)
}

impl SseDecoder {
    /// The bytes fed so far.
    pub closed spec fn seen(&self) -> Seq<u8> {
        self.seen@
    }

    /// The events handed out so far.
    pub closed spec fn handed(&self) -> nat {
        self.count@
    }

    pub closed spec fn wf(&self) -> bool {
        &&& sse_after(self.seen@).0 == self.line@
        &&& sse_after(self.seen@).1 == texts(self.data@)
        &&& sse_after(self.seen@).2.len() == self.count@
    }

    /// A decoder that has seen nothing.
    pub fn new() -> (r: SseDecoder)
        ensures
            r.wf(),
            r.seen() == Seq::<u8>::empty(),
            r.handed() == 0,
    {
        let r = SseDecoder {
            line: Vec::new(),
            data: Vec::new(),
            seen: Ghost(Seq::empty()),
            count: Ghost(0),
        };
        assert(texts(r.data@) =~= Seq::<Seq<char>>::empty());
        r
    }

    /// Feeds the next bytes and hands out the data of every event they
    /// complete, in order.
    pub fn feed(&mut self, bytes: &[u8]) -> (r: Vec<String>)
        requires
            old(self).wf(),
        ensures
            final(self).wf(),
            final(self).seen() == old(self).seen() + bytes@,
            sse_after(final(self).seen()).2 == sse_after(old(self).seen()).2 + texts(r@),
            final(self).handed() == old(self).handed() + r@.len(),
    {
        let ghost start = self.seen@;
        let mut out: Vec<String> = Vec::new();
        let mut i: usize = 0;
        while i < bytes.len()
            invariant
                i <= bytes@.len(),
                self.seen@ == start + bytes@.take(i as int),
                sse_after(self.seen@).0 == self.line@,
                sse_after(self.seen@).1 == texts(self.data@),
                sse_after(self.seen@).2 == sse_after(start).2 + texts(out@),
                self.count@ == sse_after(start).2.len() + out@.len(),
            decreases bytes@.len() - i,
        {
            let b = bytes[i];
            let ghost pre = self.seen@;
            let ghost post = start + bytes@.take(i + 1);
            proof {
                assert(post.drop_last() =~= pre);
                assert(post.last() == b);
            }
            if b == 10u8 {
                let ghost st = sse_after(pre);
                let text = lossy(self.line.as_slice());
                let line = trim_trailing_cr(text);
                let ghost raw = self.line@;
                self.line = Vec::new();
                if line.as_str().unicode_len() == 0 {
                    if self.data.len() > 0 {
                        let joined = join_data(&self.data);
                        let ghost before = out@;
                        out.push(joined);
                        assert(texts(out@) =~= texts(before).push(join_lines(st.1)));
                        self.data = Vec::new();
                        assert(texts(self.data@) =~= Seq::<Seq<char>>::empty());
                        proof {
                            self.count@ = self.count@ + 1;
                        }
                    }
                } else {
                    match data_value(line.as_str()) {
                        Some(v) => {
                            let ghost before = self.data@;
                            self.data.push(v);
                            assert(texts(self.data@) =~= texts(before).push(v@));
                        },
                        None => {},
                    }
                }
                proof {
                    assert(sse_after(post) == sse_line(st, raw));
                }
            } else {
                self.line.push(b);
            }
            proof {
                self.seen@ = post;
            }
            i += 1;
        }
        assert(bytes@.take(bytes@.len() as int) =~= bytes@);
        out
    }
}

/// Removes every trailing carriage return.
fn trim_trailing_cr(s: String) -> (r: String)
    ensures
        r@ == trim_cr(s@),
{
    let cs = crate::text::chars_of(s.as_str());
    let mut n = cs.len();
    assert(cs@.take(cs@.len() as int) =~= cs@);
    while n > 0 && cs[n - 1] == '\r'
        invariant
            n <= cs@.len(),
            trim_cr(cs@) == trim_cr(cs@.take(n as int)),
        decreases n,
    {
        assert(cs@.take(n as int).drop_last() =~= cs@.take(n - 1));
        n -= 1;
    }
    assert(cs@.take(cs@.len() as int) =~= cs@);
    proof {
        if n > 0 {
            assert(cs@.take(n as int).last() == cs@[n - 1]);
        }
    }
    crate::text::string_from(&cs, 0, n)
}

/// The value of a `data:` line (one leading space dropped); `None` for any
/// other line.
fn data_value(line: &str) -> (r: Option<String>)
    requires
        line@.len() > 0,
    ensures
        match r {
            Some(v) => line@.len() >= 5 && line@.take(5) == "data:"@ && v@ == {
                let d = line@.skip(5);
                if d.len() > 0 && d[0] == ' ' {
                    d.skip(1)
                } else {
                    d
                }
            },
            None => !(line@.len() >= 5 && line@.take(5) == "data:"@),
        },
{
    let cs = crate::text::chars_of(line);
    proof {
        reveal_strlit("data:");
    }
    if cs.len() >= 5 && cs[0] == 'd' && cs[1] == 'a' && cs[2] == 't' && cs[3] == 'a' && cs[4] == ':' {
        assert(cs@.take(5) =~= "data:"@);
        let start: usize = if cs.len() > 5 && cs[5] == ' ' {
            6
        } else {
            5
        };
        let v = crate::text::string_from(&cs, start, cs.len());
        proof {
            let d = cs@.skip(5);
            if start == 6 {
                assert(d[0] == ' ');
                assert(cs@.subrange(6, cs@.len() as int) =~= d.skip(1));
            } else {
                assert(cs@.subrange(5, cs@.len() as int) =~= d);
            }
        }
        Some(v)
    } else {
        proof {
            if cs@.len() >= 5 && cs@.take(5) == "data:"@ {
                assert(cs@.take(5)[0] == 'd' && cs@.take(5)[1] == 'a' && cs@.take(5)[2] == 't'
                    && cs@.take(5)[3] == 'a' && cs@.take(5)[4] == ':');
            }
        }
        None
    }
}

/// The data lines joined by line feeds.
fn join_data(data: &Vec<String>) -> (r: String)
    ensures
        r@ == join_lines(texts(data@)),
{
    let mut out = String::new();
    let mut i: usize = 0;
    while i < data.len()
        invariant
            i <= data@.len(),
            out@ == join_lines(texts(data@).take(i as int)),
        decreases data@.len() - i,
    {
        let ghost t = texts(data@);
        proof {
            assert(t.take(i + 1).drop_last() =~= t.take(i as int));
            assert(t.take(i + 1).last() == data@[i as int]@);
            if i == 0 {
                assert(t.take(1)[0] == data@[0]@);
            }
        }
        if i > 0 {
            push_char(&mut out, '\n');
        }
        push_str(&mut out, data[i].as_str());
        i += 1;
        proof {
            if i == 1 {
                assert(out@ =~= join_lines(t.take(1)));
            } else {
                assert(out@ =~= join_lines(t.take(i as int)));
            }
        }
    }
    assert(texts(data@).take(data@.len() as int) =~= texts(data@));
    out
}

/// One daemon event's payload as the turn reads it: its type and the string
/// fields it may carry (empty when absent), the `success` flag and the tool
/// arguments.
pub struct Payload {
    pub kind: String,
    pub session_id: String,
    pub content: String,
    pub tool: String,
    pub output: String,
    pub call_id: String,
    pub reason: String,
    pub message: String,
    pub success: Option<bool>,
    pub args: ToolArgs,
}

/// What an event asks of the turn.
pub enum Step {
    /// Show this event and go on.
    Show(UiEvent),
    /// Show this event; the turn is over.
    Finish(UiEvent),
    /// Run the local tool and reply with its result.
    Execute { call_id: String, tool: String, detail: String },
    /// Show the permission request and decline it.
    Decline { call_id: String, event: UiEvent },
    /// Nothing to do.
    Skip,
}

/// The step an event asks for (by its type).
pub open spec fn step_of(p: Payload, s: Step) -> bool {
    let k = p.kind@;
    if k == "welcome"@ {
        s matches Step::Show(UiEvent::Welcome { session_id }) && session_id@ == p.session_id@
    } else if k == "chunk"@ {
        s matches Step::Show(UiEvent::Chunk { content }) && content@ == p.content@
    } else if k == "think_chunk"@ {
        s matches Step::Show(UiEvent::Think { content }) && content@ == p.content@
    } else if k == "diagnostic"@ {
        s matches Step::Show(UiEvent::Diagnostic { content }) && content@ == p.content@
    } else if k == "tool_start"@ {
        s matches Step::Show(UiEvent::ToolStart { tool, detail }) && tool@ == p.tool@ && detail@
            == detail_text(p.tool@, p.args.members@)
    } else if k == "tool_result"@ {
        s matches Step::Show(UiEvent::ToolResult { ok, preview }) && ok == match p.success {
            Some(b) => b,
            None => true,
        } && preview@ == preview_text(Seq::empty(), p.output@)
    } else if k == "tool_execute"@ {
        s matches Step::Execute { call_id, tool, detail } && call_id@ == p.call_id@ && tool@
            == p.tool@ && detail@ == detail_text(p.tool@, p.args.members@)
    } else if k == "permission_request"@ {
        s matches Step::Decline { call_id, event: UiEvent::Permission { tool, reason } } && call_id@
            == p.call_id@ && tool@ == p.tool@ && reason@ == p.reason@
    } else if k == "done"@ {
        s matches Step::Finish(UiEvent::Done)
    } else if k == "error"@ {
        s matches Step::Finish(UiEvent::Error { message }) && message@ == p.message@
    } else {
        s is Skip
    }
}

fn copy(s: &String) -> (r: String)
    ensures
        r@ == s@,
{
    s.clone()
}

/// Decides what one daemon event asks for (see [`step_of`]).
pub fn route(p: &Payload) -> (r: Step)
    ensures
        step_of(*p, r),
{
    let k = p.kind.as_str();
    proof {
        reveal_strlit("welcome");
        reveal_strlit("chunk");
        reveal_strlit("think_chunk");
        reveal_strlit("diagnostic");
        reveal_strlit("tool_start");
        reveal_strlit("tool_result");
        reveal_strlit("tool_execute");
        reveal_strlit("permission_request");
        reveal_strlit("done");
        reveal_strlit("error");
    }
    if str_eq(k, "welcome") {
        Step::Show(UiEvent::Welcome { session_id: copy(&p.session_id) })
    } else if str_eq(k, "chunk") {
        Step::Show(UiEvent::Chunk { content: copy(&p.content) })
    } else if str_eq(k, "think_chunk") {
        Step::Show(UiEvent::Think { content: copy(&p.content) })
    } else if str_eq(k, "diagnostic") {
        Step::Show(UiEvent::Diagnostic { content: copy(&p.content) })
    } else if str_eq(k, "tool_start") {
        Step::Show(
            UiEvent::ToolStart { tool: copy(&p.tool), detail: detail(p.tool.as_str(), &p.args) },
        )
    } else if str_eq(k, "tool_result") {
        let ok = match p.success {
            Some(b) => b,
            None => true,
        };
        let pv = preview("", p.output.as_str());
        proof {
            reveal_strlit("");
            assert(""@ =~= Seq::<char>::empty());
        }
        Step::Show(UiEvent::ToolResult { ok, preview: pv })
    } else if str_eq(k, "tool_execute") {
        Step::Execute {
            call_id: copy(&p.call_id),
            tool: copy(&p.tool),
            detail: detail(p.tool.as_str(), &p.args),
        }
    } else if str_eq(k, "permission_request") {
        Step::Decline {
            call_id: copy(&p.call_id),
            event: UiEvent::Permission { tool: copy(&p.tool), reason: copy(&p.reason) },
        }
    } else if str_eq(k, "done") {
        Step::Finish(UiEvent::Done)
    } else if str_eq(k, "error") {
        Step::Finish(UiEvent::Error { message: copy(&p.message) })
    } else {
        Step::Skip
    }
}

/// The event shown after a local tool ran: its name, outcome, argument
/// summary and a preview of its output.
pub fn tool_done(tool: &str, ok: bool, detail: &str, output: &str) -> (r: UiEvent)
    ensures
        r matches UiEvent::Tool { tool: t, ok: o, detail: d, preview: pv } && t@ == tool@ && o == ok
            && d@ == detail@ && pv@ == preview_text(tool@, output@),
{
    UiEvent::Tool {
        tool: to_string(tool),
        ok,
        detail: to_string(detail),
        preview: preview(tool, output),
    }
}

/// What a shell command's approval round trip ends in when the command is
/// not run: shell execution switched off, or the user declining.
pub fn shell_refusal(enabled: bool, approved: bool) -> (r: Option<String>)
    ensures
        !enabled ==> r is Some && r->0@ == "셸 실행 비활성 — 설정에서 실험기능(C)에 동의해야 합니다."@,
        enabled && !approved ==> r is Some && r->0@ == "사용자가 명령 실행을 거부했습니다."@,
        enabled && approved ==> r is None,
{
    if !enabled {
        Some(to_string("셸 실행 비활성 — 설정에서 실험기능(C)에 동의해야 합니다."))
    } else if !approved {
        Some(to_string("사용자가 명령 실행을 거부했습니다."))
    } else {
        None
    }
}

/// Events once handed out are final: more bytes only add events after
/// them, so a stream cut into any pieces decodes to the same events.
pub proof fn law_events_only_grow(a: Seq<u8>, b: Seq<u8>)
    ensures
        sse_after(a).2.len() <= sse_after(a + b).2.len(),
        sse_after(a + b).2.take(sse_after(a).2.len() as int) == sse_after(a).2,
    decreases b.len(),
{
    if b.len() == 0 {
        assert(a + b =~= a);
        assert(sse_after(a).2.take(sse_after(a).2.len() as int) =~= sse_after(a).2);
    } else {
        law_events_only_grow(a, b.drop_last());
        assert((a + b).drop_last() =~= a + b.drop_last());
        assert((a + b).last() == b.last());
        let before = sse_after(a + b.drop_last()).2;
        let after = sse_after(a + b).2;
        let n = sse_after(a).2.len() as int;
        assert(after.len() >= before.len());
        assert(after.take(n) =~= before.take(n));
    }
}

} // verus!
