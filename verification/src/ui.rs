use vstd::prelude::*;
use crate::channel::ChannelSummary;
use crate::channel::spec_toggle;
use crate::channel::toggle_channel;
use crate::text::dec_str;
use crate::text::pad_left;
use crate::text::pad_left_spec;
use crate::text::pad_right;
use crate::text::pad_right_spec;
use crate::text::str_eq;
use crate::text::truncate_name;
use crate::text::truncate_spec;
use crate::text::u64_to_string;

verus! {

/// One terminal key, as the browser reads it.
#[derive(Clone, Copy, Debug)]
pub enum Key {
    Up,
    Down,
    Enter,
    Backspace,
    Esc,
    Char(char),
    Other,
}

/// What the loop does after a key: keep going, stop, or run a command.
pub enum UiAction {
    Continue,
    Exit,
    RunCommand(String),
}

/// The cursor and command-line state of the interactive session.
pub struct UiState {
    pub selected_index: usize,
    pub offset: usize,
    pub command_mode: bool,
    pub command_input: String,
}

/// The cursor invariant over a list of `len` channels: the selection is a
/// valid index and the viewport never starts below it.
pub open spec fn state_inv(s: UiState, len: nat) -> bool {
    if len == 0 {
        s.selected_index == 0 && s.offset == 0
    } else {
        s.selected_index < len && s.offset <= s.selected_index
    }
}

/// How many channel rows fit a terminal of the given height; a terminal
/// too short for the chrome shows none.
pub open spec fn viewport_rows(height: nat) -> nat {
    if height >= 3 {
        (height - 3) as nat
    } else {
        0
    }
}

/// Relies on String::push: appends exactly the one character.
#[verifier::external_body]
fn push_char(s: &mut String, c: char)
    ensures
        final(s)@ == old(s)@.push(c),
{
    s.push(c);
}

/// Relies on String::pop: removes and returns the last character.
#[verifier::external_body]
fn pop_char(s: &mut String) -> (r: Option<char>)
    ensures
        old(s)@.len() == 0 ==> r is None && final(s)@ == old(s)@,
        old(s)@.len() > 0 ==> r == Some(old(s)@.last()) && final(s)@ == old(s)@.drop_last(),
{
    s.pop()
}

impl UiState {
    /// The state a session starts in: cursor at the top, command line off.
    pub fn new() -> (s: UiState)
        ensures
            s.selected_index == 0,
            s.offset == 0,
            !s.command_mode,
            s.command_input@.len() == 0,
            forall|len: nat| state_inv(s, len),
    {
        UiState { selected_index: 0, offset: 0, command_mode: false, command_input: String::new() }
    }

    /// Applies one key. In command mode keys edit or submit the command
    /// line; outside it they move the cursor, toggle the selection, enter
    /// command mode, or end the session. Unknown keys change nothing.
    pub fn handle_key(
        &mut self,
        key: Key,
        channels: &mut Vec<ChannelSummary>,
        height: usize,
    ) -> (a: UiAction)
        requires
            state_inv(*old(self), old(channels)@.len() as nat),
        ensures
            state_inv(*final(self), final(channels)@.len() as nat),
            final(channels)@.len() == old(channels)@.len(),
            // The channel list changes only by the space-bar toggle.
            (old(self).command_mode || !(key matches Key::Char(c) && c == ' ') || old(
                channels)@.len() == 0) ==> final(channels)@ == old(channels)@,
            !old(self).command_mode && (key matches Key::Char(c) && c == ' ') && old(
                channels)@.len() > 0 ==> final(channels)@ == spec_toggle(
                old(channels)@,
                old(self).selected_index as int,
            ),
            // Command-mode transitions.
            old(self).command_mode ==> match key {
                Key::Char(c) => final(self).command_mode && final(self).command_input@ == old(
                    self).command_input@.push(c) && a is Continue,
                Key::Backspace => final(self).command_mode && final(self).command_input@ == (
                    if old(self).command_input@.len() > 0 {
                        old(self).command_input@.drop_last()
                    } else {
                        old(self).command_input@
                    }) && a is Continue,
                Key::Enter => !final(self).command_mode && final(self).command_input@.len() == 0
                    && (a matches UiAction::RunCommand(cmd) && cmd@ == old(
                    self).command_input@),
                Key::Esc => !final(self).command_mode && final(self).command_input@.len() == 0
                    && a is Continue,
                _ => *final(self) == *old(self) && a is Continue,
            },
            old(self).command_mode ==> final(self).selected_index == old(self).selected_index
                && final(self).offset == old(self).offset,
            // Browse-mode transitions.
            !old(self).command_mode ==> match key {
                Key::Char(c) => {
                    if c == ':' {
                        final(self).command_mode && final(self).command_input@.len() == 0
                            && final(self).selected_index == old(self).selected_index && final(
                            self).offset == old(self).offset && a is Continue
                    } else {
                        final(self).command_mode == old(self).command_mode && final(
                            self).command_input@ == old(self).command_input@ && final(
                            self).selected_index == old(self).selected_index && final(
                            self).offset == old(self).offset && a is Continue
                    }
                },
                Key::Up => {
                    &&& (if old(self).selected_index > 0 {
                        final(self).selected_index == old(self).selected_index - 1 && final(
                            self).offset == (if old(self).selected_index - 1 < old(
                            self).offset {
                            old(self).offset - 1
                        } else {
                            old(self).offset as int
                        })
                    } else {
                        final(self).selected_index == old(self).selected_index && final(
                            self).offset == old(self).offset
                    })
                    &&& final(self).command_mode == old(self).command_mode
                    &&& final(self).command_input@ == old(self).command_input@
                    &&& a is Continue
                },
                Key::Down => {
                    &&& (if old(channels)@.len() > 0 && old(self).selected_index < old(
                        channels)@.len() - 1 {
                        final(self).selected_index == old(self).selected_index + 1 && final(
                            self).offset == (if old(self).selected_index + 1 - old(self).offset
                            >= viewport_rows(height as nat) {
                            old(self).offset + 1
                        } else {
                            old(self).offset as int
                        })
                    } else {
                        final(self).selected_index == old(self).selected_index && final(
                            self).offset == old(self).offset
                    })
                    &&& final(self).command_mode == old(self).command_mode
                    &&& final(self).command_input@ == old(self).command_input@
                    &&& a is Continue
                },
                Key::Esc => *final(self) == *old(self) && a is Exit,
                _ => *final(self) == *old(self) && a is Continue,
            },
    {
        if self.command_mode {
            match key {
                Key::Char(c) => {
                    push_char(&mut self.command_input, c);
                    UiAction::Continue
                },
                Key::Backspace => {
                    let _dropped = pop_char(&mut self.command_input);
                    UiAction::Continue
                },
                Key::Enter => {
                    let mut cmd: String = String::new();
                    core::mem::swap(&mut self.command_input, &mut cmd);
                    self.command_mode = false;
                    UiAction::RunCommand(cmd)
                },
                Key::Esc => {
                    self.command_mode = false;
                    self.command_input = String::new();
                    UiAction::Continue
                },
                _ => UiAction::Continue,
            }
        } else {
            match key {
                Key::Char(c) => {
                    if c == ':' {
                        self.command_mode = true;
                        self.command_input = String::new();
                    } else if c == ' ' {
                        if channels.len() > 0 {
                            let i = self.selected_index;
                            toggle_channel(channels, i);
                        }
                    }
                    UiAction::Continue
                },
                Key::Up => {
                    if self.selected_index > 0 {
                        self.selected_index = self.selected_index - 1;
                        if self.selected_index < self.offset {
                            self.offset = self.offset - 1;
                        }
                    }
                    UiAction::Continue
                },
                Key::Down => {
                    if channels.len() > 0 && self.selected_index < channels.len() - 1 {
                        self.selected_index = self.selected_index + 1;
                        let vh: usize = if height >= 3 {
                            height - 3
                        } else {
                            0
                        };
                        if self.selected_index - self.offset >= vh {
                            self.offset = self.offset + 1;
                        }
                    }
                    UiAction::Continue
                },
                Key::Esc => UiAction::Exit,
                _ => UiAction::Continue,
            }
        }
    }
}

/// The column header above the channel list.
pub open spec fn spec_header() -> Seq<char> {
    pad_right_spec("Type"@, 8) + " "@ + pad_right_spec("Name"@, 30) + " "@ + pad_right_spec(
        "Date"@,
        15,
    ) + " "@ + pad_left_spec("Msgs"@, 10) + " "@ + pad_left_spec("Attchs"@, 12)
}

/// Renders the column header.
pub fn header_line() -> (r: String)
    ensures
        r@ == spec_header(),
{
    let mut r = pad_right("Type", 8);
    r.append(" ");
    let p1 = pad_right("Name", 30);
    r.append(p1.as_str());
    r.append(" ");
    let p2 = pad_right("Date", 15);
    r.append(p2.as_str());
    r.append(" ");
    let p3 = pad_left("Msgs", 10);
    r.append(p3.as_str());
    r.append(" ");
    let p4 = pad_left("Attchs", 12);
    r.append(p4.as_str());
    r
}

/// One channel's row: selection indicator, name cut to its column, date,
/// and the two right-aligned counts.
pub open spec fn spec_row(c: ChannelSummary) -> Seq<char> {
    pad_right_spec(if c.selected { "[x]"@ } else { "[ ]"@ }, 8) + " "@ + pad_right_spec(
        truncate_spec(c.display_name@, 30),
        30,
    ) + " "@ + pad_right_spec(c.created_at@, 15) + " "@ + pad_left_spec(
        dec_str(c.message_count as nat),
        10,
    ) + " "@ + pad_left_spec(dec_str(c.attachment_count as nat), 12)
}

/// Renders one channel's row text.
pub fn render_row(c: &ChannelSummary) -> (r: String)
    ensures
        r@ == spec_row(*c),
{
    let indicator: &str = if c.selected {
        "[x]"
    } else {
        "[ ]"
    };
    let mut r = pad_right(indicator, 8);
    r.append(" ");
    let name = truncate_name(c.display_name.as_str(), 30);
    let p1 = pad_right(name.as_str(), 30);
    r.append(p1.as_str());
    r.append(" ");
    let p2 = pad_right(c.created_at.as_str(), 15);
    r.append(p2.as_str());
    r.append(" ");
    let m = u64_to_string(c.message_count as u64);
    let p3 = pad_left(m.as_str(), 10);
    r.append(p3.as_str());
    r.append(" ");
    let t = u64_to_string(c.attachment_count as u64);
    let p4 = pad_left(t.as_str(), 12);
    r.append(p4.as_str());
    r
}

/// The rows visible in the viewport, each with its highlight flag.
pub fn render_rows(
    channels: &Vec<ChannelSummary>,
    selected_index: usize,
    offset: usize,
    height: usize,
) -> (rows: Vec<(String, bool)>)
    ensures
        rows@.len() == (if offset <= channels@.len() {
            if channels@.len() - offset < viewport_rows(height as nat) {
                channels@.len() - offset
            } else {
                viewport_rows(height as nat) as int
            }
        } else {
            0
        }),
        forall|k: int|
            0 <= k < rows@.len() ==> (#[trigger] rows@[k]).0@ == spec_row(
                channels@[offset + k],
            ) && rows@[k].1 == (offset + k == selected_index),
{
    let mut rows: Vec<(String, bool)> = Vec::new();
    let vh: usize = if height >= 3 {
        height - 3
    } else {
        0
    };
    if offset > channels.len() {
        return rows;
    }
    let rest: usize = channels.len() - offset;
    let count: usize = if rest < vh {
        rest
    } else {
        vh
    };
    let mut k: usize = 0;
    while k < count
        invariant
            0 <= k <= count,
            offset + count <= channels@.len(),
            channels@.len() <= usize::MAX,
            rows@.len() == k,
            forall|j: int|
                0 <= j < k ==> (#[trigger] rows@[j]).0@ == spec_row(channels@[offset + j])
                    && rows@[j].1 == (offset + j == selected_index),
        decreases count - k,
    {
        let text = render_row(&channels[offset + k]);
        let highlighted: bool = offset + k == selected_index;
        rows.push((text, highlighted));
        k = k + 1;
    }
    rows
}

/// The fixed title of the channel list.
pub fn title_label() -> (r: String)
    ensures
        r@ == "Select Channels to Export"@,
{
    "Select Channels to Export".to_owned()
}

/// The position counter beside the title.
pub open spec fn spec_counter(offset: nat, total: nat) -> Seq<char> {
    " ("@ + dec_str(offset + 1) + "/"@ + dec_str(total) + ")"@
}

/// Renders the "(position/total)" counter, with the topmost visible row,
/// one-based, as the position.
pub fn title_counter(offset: usize, total: usize) -> (r: String)
    requires
        offset < usize::MAX,
    ensures
        r@ == spec_counter(offset as nat, total as nat),
{
    proof {
        reveal_strlit(" (");
        reveal_strlit("/");
        reveal_strlit(")");
    }
    let mut r: String = " (".to_owned();
    let p = u64_to_string(offset as u64 + 1);
    r.append(p.as_str());
    r.append("/");
    let t = u64_to_string(total as u64);
    r.append(t.as_str());
    r.append(")");
    r
}

/// The live command-line echo shown at the bottom of the screen.
pub fn command_echo(input: &str) -> (r: String)
    ensures
        r@ == ":"@ + input@,
{
    let mut r: String = ":".to_owned();
    r.append(input);
    r
}

/// The identifiers of the channels currently flagged selected, in order.
pub open spec fn spec_selected_ids(s: Seq<ChannelSummary>) -> Seq<Seq<char>>
    decreases s.len(),
{
    if s.len() == 0 {
        Seq::empty()
    } else {
        spec_selected_ids(s.drop_last()) + if s.last().selected {
            seq![s.last().channel_id@]
        } else {
            Seq::<Seq<char>>::empty()
        }
    }
}

/// What a typed command asks for.
pub enum CommandAction {
    Export(Vec<String>),
    Quit,
    Unknown,
}

/// Decides a typed command: `export` collects the identifiers of the
/// selected channels, `exit` and `quit` end the process, and any other
/// text is unknown and changes nothing.
pub fn handle_command(command: &str, channels: &Vec<ChannelSummary>) -> (a: CommandAction)
    ensures
        command@ == "export"@ ==> (a matches CommandAction::Export(ids) && ids@.map_values(
            |t: String| t@,
        ) == spec_selected_ids(channels@)),
        (command@ == "exit"@ || command@ == "quit"@) ==> a is Quit,
        (command@ != "export"@ && command@ != "exit"@ && command@ != "quit"@) ==> a is Unknown,
{
    proof {
        reveal_strlit("export");
        reveal_strlit("exit");
        reveal_strlit("quit");
        assert("exit"@ != "quit"@) by {
            assert("exit"@[0] != "quit"@[0]);
        }
    }
    if str_eq(command, "export") {
        let mut ids: Vec<String> = Vec::new();
        let mut i: usize = 0;
        proof {
            assert(ids@.map_values(|t: String| t@) =~= spec_selected_ids(
                channels@.subrange(0, 0)));
        }
        while i < channels.len()
            invariant
                0 <= i <= channels@.len(),
                command@ == "export"@,
                ids@.map_values(|t: String| t@) == spec_selected_ids(
                    channels@.subrange(0, i as int),
                ),
            decreases channels@.len() - i,
        {
            proof {
                assert(channels@.subrange(0, i + 1).drop_last() =~= channels@.subrange(
                    0, i as int));
                assert(channels@.subrange(0, i + 1).last() == channels@[i as int]);
            }
            if channels[i].selected {
                let id = channels[i].channel_id.clone();
                ids.push(id);
            }
            proof {
                assert(ids@.map_values(|t: String| t@) =~= spec_selected_ids(
                    channels@.subrange(0, i + 1)));
            }
            i = i + 1;
        }
        proof {
            reveal_strlit("export");
            reveal_strlit("exit");
            reveal_strlit("quit");
            assert(command@ != "exit"@) by {
                reveal_strlit("export");
                reveal_strlit("exit");
                assert("export"@.len() == 6);
                assert("exit"@.len() == 4);
            }
            assert(command@ != "quit"@) by {
                reveal_strlit("export");
                reveal_strlit("quit");
                assert("export"@.len() == 6);
                assert("quit"@.len() == 4);
            }
            assert(channels@.subrange(0, channels@.len() as int) =~= channels@);
        }
        CommandAction::Export(ids)
    } else if str_eq(command, "exit") {
        CommandAction::Quit
    } else if str_eq(command, "quit") {
        CommandAction::Quit
    } else {
        CommandAction::Unknown
    }
}

} // verus!
