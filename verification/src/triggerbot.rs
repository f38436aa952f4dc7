//! Triggerbot detection over the demo recorder's console command stream.
//!
//! A human sends one `+attack` per press and one `-attack` per release; some
//! triggerbots re-issue `+attack` while it is already held. Commands carry a
//! trailing number (`+attack 45`), so only the first white-space separated
//! token is compared. Console commands belong to the player who recorded the
//! demo, so every flag is attributed to the recorder.
use crate::text::{chars_eq, first_token, first_token_of, str_eq};
use vstd::prelude::*;

verus! {

/// A console command the recorder issued, with its tick.
#[derive(Clone, Debug, PartialEq, Eq)]
pub struct ConsoleCmd {
    pub tick: u32,
    pub command: String,
}

/// What a console command does to the attack button.
#[derive(Clone, Copy, Debug, PartialEq, Eq, Structural)]
pub enum AttackCmd {
    Press,
    Release,
    Other,
}

pub open spec fn press_token() -> Seq<char> {
    seq!['+', 'a', 't', 't', 'a', 'c', 'k']
}

pub open spec fn release_token() -> Seq<char> {
    seq!['-', 'a', 't', 't', 'a', 'c', 'k']
}

/// The effect of a command, decided by its first token alone.
pub open spec fn attack_kind(command: Seq<char>) -> AttackCmd {
    if first_token(command) == press_token() {
        AttackCmd::Press
    } else if first_token(command) == release_token() {
        AttackCmd::Release
    } else {
        AttackCmd::Other
    }
}

/// Classifies a console command by its first token.
pub fn classify_command(command: &str) -> (k: AttackCmd)
    ensures
        k == attack_kind(command@),
{
    let token = first_token_of(command);
    let press: [char; 7] = ['+', 'a', 't', 't', 'a', 'c', 'k'];
    let release: [char; 7] = ['-', 'a', 't', 't', 'a', 'c', 'k'];
    assert(press@ =~= press_token());
    assert(release@ =~= release_token());
    if chars_eq(token.as_slice(), &press) {
        AttackCmd::Press
    } else if chars_eq(token.as_slice(), &release) {
        AttackCmd::Release
    } else {
        AttackCmd::Other
    }
}

/// The nesting depth of the attack button after one command: presses
/// deepen it, releases undo one press but never go below zero.
pub open spec fn next_depth(depth: int, k: AttackCmd) -> int {
    match k {
        AttackCmd::Press => depth + 1,
        AttackCmd::Release => if depth - 1 > 0 {
            depth - 1
        } else {
            0
        },
        AttackCmd::Other => depth,
    }
}

/// The depth after a run of commands.
pub open spec fn depth_after(depth: int, cmds: Seq<ConsoleCmd>) -> int
    decreases cmds.len(),
{
    if cmds.len() == 0 {
        depth
    } else {
        next_depth(depth_after(depth, cmds.drop_last()), attack_kind(cmds.last().command@))
    }
}

/// One flag: a press or release that left the button held twice or more.
pub struct HeldFlag {
    pub tick: u32,
    pub command: Seq<char>,
    pub held: int,
}

/// The flags a run of commands raises, in order.
pub open spec fn flags_after(depth: int, cmds: Seq<ConsoleCmd>) -> Seq<HeldFlag>
    decreases cmds.len(),
{
    if cmds.len() == 0 {
        Seq::empty()
    } else {
        let before = flags_after(depth, cmds.drop_last());
        let last = cmds.last();
        let d = depth_after(depth, cmds);
        if attack_kind(last.command@) != AttackCmd::Other && d >= 2 {
            before.push(HeldFlag { tick: last.tick, command: last.command@, held: d })
        } else {
            before
        }
    }
}

/// A flag raised against the recorder.
#[derive(Clone, Debug, PartialEq, Eq)]
pub struct AttackFlag {
    pub tick: u32,
    pub player: u64,
    pub command: String,
    pub held: i32,
}

/// The flags `out` stand for `flags`, all against `player`.
pub open spec fn flags_match(out: Seq<AttackFlag>, flags: Seq<HeldFlag>, player: u64) -> bool {
    &&& out.len() == flags.len()
    &&& forall|i: int|
        0 <= i < out.len() ==> {
            &&& (#[trigger] out[i]).tick == flags[i].tick
            &&& out[i].player == player
            &&& out[i].command@ == flags[i].command
            &&& out[i].held as int == flags[i].held
        }
}

/// Depth never exceeds the number of commands that raised it.
pub proof fn lemma_depth_bounds(depth: int, cmds: Seq<ConsoleCmd>)
    requires
        depth >= 0,
    ensures
        0 <= depth_after(depth, cmds) <= depth + cmds.len(),
    decreases cmds.len(),
{
    if cmds.len() > 0 {
        lemma_depth_bounds(depth, cmds.drop_last());
    }
}

/// Whether `sid` is the id of a player named `nick` in `names`.
pub open spec fn names_player(names: Seq<(u64, String)>, nick: Seq<char>, sid: u64) -> bool {
    exists|i: int| 0 <= i < names.len() && (#[trigger] names[i]).0 == sid && names[i].1@ == nick
}

/// The recorder id after a lookup: kept once known; otherwise looked up by the
/// header nickname, when there is a non-empty one.
pub open spec fn recorder_after(
    known: Option<u64>,
    nick: Option<Seq<char>>,
    names: Seq<(u64, String)>,
    found: Option<u64>,
) -> bool {
    if known is Some {
        found == known
    } else if nick is None || nick->0.len() == 0 {
        found is None
    } else {
        match found {
            Some(sid) => names_player(names, nick->0, sid),
            None => forall|i: int| 0 <= i < names.len() ==> (#[trigger] names[i]).1@ != nick->0,
        }
    }
}

/// Finds the id of a player called `nick`.
pub fn find_named_player(names: &Vec<(u64, String)>, nick: &str) -> (r: Option<u64>)
    ensures
        match r {
            Some(sid) => names_player(names@, nick@, sid),
            None => forall|i: int| 0 <= i < names@.len() ==> (#[trigger] names@[i]).1@ != nick@,
        },
{
    let mut i: usize = 0;
    while i < names.len()
        invariant
            i <= names.len(),
            forall|j: int| 0 <= j < i ==> (#[trigger] names@[j]).1@ != nick@,
        decreases names.len() - i,
    {
        if str_eq(names[i].1.as_str(), nick) {
            assert(names@[i as int].1@ == nick@);
            return Some(names[i].0);
        }
        i += 1;
    }
    None
}

/// Looks the recorder up once: the header nickname matched against the known
/// player names.
pub fn resolve_recorder(known: Option<u64>, nick: Option<&str>, names: &Vec<(u64, String)>) -> (r:
    Option<u64>)
    ensures
        recorder_after(
            known,
            match nick {
                Some(n) => Some(n@),
                None => None,
            },
            names@,
            r,
        ),
{
    if known.is_some() {
        return known;
    }
    match nick {
        None => None,
        Some(n) => {
            if n.unicode_len() == 0 {
                None
            } else {
                find_named_player(names, n)
            }
        },
    }
}

/// The triggerbot detector: how far into the command stream it has read, how
/// deep the attack button is held, and who recorded the demo.
pub struct TriggerBot {
    next_cmd: usize,
    attack_depth: i32,
    recorder_sid: Option<u64>,
}

/// The detector's state.
pub struct TriggerBotModel {
    pub next_cmd: nat,
    pub depth: int,
    pub recorder: Option<u64>,
}

impl View for TriggerBot {
    type V = TriggerBotModel;

    closed spec fn view(&self) -> TriggerBotModel {
        TriggerBotModel {
            next_cmd: self.next_cmd as nat,
            depth: self.attack_depth as int,
            recorder: self.recorder_sid,
        }
    }
}

/// The detector's invariant: the depth is never negative and never exceeds
/// the number of commands read.
pub open spec fn trigger_wf(m: TriggerBotModel) -> bool {
    0 <= m.depth <= m.next_cmd
}

/// The state and flags after a tick on which the recorder's command log is `cmds`.
pub open spec fn tick_outcome(m: TriggerBotModel, recorder: Option<u64>, cmds: Seq<ConsoleCmd>) -> (
    TriggerBotModel,
    Seq<HeldFlag>,
) {
    if m.next_cmd >= cmds.len() {
        (TriggerBotModel { recorder, ..m }, Seq::empty())
    } else {
        let fresh = cmds.subrange(m.next_cmd as int, cmds.len() as int);
        (
            TriggerBotModel {
                next_cmd: cmds.len(),
                depth: depth_after(m.depth, fresh),
                recorder,
            },
            flags_after(m.depth, fresh),
        )
    }
}

/// A tick that sees no new console command raises nothing: in particular,
/// running a second tick over the same command log reprocesses nothing.
pub proof fn lemma_no_reprocessing(m: TriggerBotModel, recorder: Option<u64>, cmds: Seq<ConsoleCmd>)
    ensures
        tick_outcome(tick_outcome(m, recorder, cmds).0, recorder, cmds).1 == Seq::<HeldFlag>::empty(),
        tick_outcome(tick_outcome(m, recorder, cmds).0, recorder, cmds).0 == tick_outcome(
            m,
            recorder,
            cmds,
        ).0,
{
}

impl TriggerBot {
    /// A detector that has read nothing yet.
    pub fn new() -> (t: Self)
        ensures
            t@ == (TriggerBotModel { next_cmd: 0, depth: 0, recorder: None }),
            trigger_wf(t@),
    {
        Self { next_cmd: 0, attack_depth: 0, recorder_sid: None }
    }

    /// Runs new commands through the depth counter, flagging every press or
    /// release that leaves the button held two or more deep.
    pub fn process_new_cmds(&mut self, cmds: &[ConsoleCmd]) -> (r: Vec<AttackFlag>)
        requires
            0 <= old(self)@.depth,
            old(self)@.depth + cmds@.len() <= i32::MAX,
        ensures
            final(self)@.depth == depth_after(old(self)@.depth, cmds@),
            final(self)@.next_cmd == old(self)@.next_cmd,
            final(self)@.recorder == old(self)@.recorder,
            flags_match(r@, flags_after(old(self)@.depth, cmds@), match old(self)@.recorder {
                Some(s) => s,
                None => 0,
            }),
    {
        let ghost d0 = self@.depth;
        let player = match self.recorder_sid {
            Some(s) => s,
            None => 0,
        };
        let mut out: Vec<AttackFlag> = Vec::new();
        let mut i: usize = 0;
        while i < cmds.len()
            invariant
                i <= cmds.len(),
                0 <= d0,
                d0 + cmds@.len() <= i32::MAX,
                self.attack_depth as int == depth_after(d0, cmds@.subrange(0, i as int)),
                self.next_cmd == old(self).next_cmd,
                self.recorder_sid == old(self).recorder_sid,
                player == (match old(self)@.recorder {
                    Some(s) => s,
                    None => 0,
                }),
                flags_match(out@, flags_after(d0, cmds@.subrange(0, i as int)), player),
            decreases cmds.len() - i,
        {
            let ghost pre = cmds@.subrange(0, i as int);
            let ghost post = cmds@.subrange(0, i + 1);
            assert(post.drop_last() == pre);
            assert(post.last() == cmds@[i as int]);
            proof {
                lemma_depth_bounds(d0, pre);
            }
            let kind = classify_command(cmds[i].command.as_str());
            match kind {
                AttackCmd::Press => {
                    self.attack_depth = self.attack_depth + 1;
                },
                AttackCmd::Release => {
                    self.attack_depth = if self.attack_depth - 1 > 0 {
                        self.attack_depth - 1
                    } else {
                        0
                    };
                },
                AttackCmd::Other => {},
            }
            if kind != AttackCmd::Other && self.attack_depth >= 2 {
                out.push(
                    AttackFlag {
                        tick: cmds[i].tick,
                        player,
                        command: cmds[i].command.clone(),
                        held: self.attack_depth,
                    },
                );
            }
            i += 1;
        }
        assert(cmds@.subrange(0, cmds@.len() as int) == cmds@);
        out
    }

    /// One tick: looks the recorder up if still unknown, then processes the
    /// commands logged since the previous tick.
    pub fn on_tick(
        &mut self,
        nick: Option<&str>,
        names: &Vec<(u64, String)>,
        console_cmds: &Vec<ConsoleCmd>,
    ) -> (r: Vec<AttackFlag>)
        requires
            trigger_wf(old(self)@),
            console_cmds@.len() <= i32::MAX,
        ensures
            recorder_after(
                old(self)@.recorder,
                match nick {
                    Some(n) => Some(n@),
                    None => None,
                },
                names@,
                final(self)@.recorder,
            ),
            final(self)@ == tick_outcome(old(self)@, final(self)@.recorder, console_cmds@).0,
            flags_match(
                r@,
                tick_outcome(old(self)@, final(self)@.recorder, console_cmds@).1,
                match final(self)@.recorder {
                    Some(s) => s,
                    None => 0,
                },
            ),
            trigger_wf(final(self)@),
    {
        self.recorder_sid = resolve_recorder(self.recorder_sid, nick, names);
        if self.next_cmd >= console_cmds.len() {
            return Vec::new();
        }
        let fresh = slice_from(console_cmds.as_slice(), self.next_cmd);
        let r = self.process_new_cmds(fresh);
        self.next_cmd = console_cmds.len();
        proof {
            lemma_depth_bounds(old(self)@.depth, fresh@);
        }
        r
    }

    /// The name under which this detector reports.
    pub fn algorithm_name(&self) -> (n: &'static str)
        ensures
            n@ == seq!['t', 'r', 'i', 'g', 'g', 'e', 'r', 'b', 'o', 't'],
    {
        let n = "triggerbot";
        proof {
            reveal_strlit("triggerbot");
        }
        n
    }

    /// At the end of the demo nothing is left to judge.
    pub fn finish(&mut self) -> (r: Vec<AttackFlag>)
        ensures
            r@.len() == 0,
            final(self)@ == old(self)@,
    {
        Vec::new()
    }

    /// The detector's state, for inspection.
    pub fn attack_depth(&self) -> (d: i32)
        ensures
            d as int == self@.depth,
    {
        self.attack_depth
    }
}

/// `s[from..]`.
fn slice_from<T>(s: &[T], from: usize) -> (r: &[T])
    requires
        from <= s@.len(),
    ensures
        r@ == s@.subrange(from as int, s@.len() as int),
{
    let (_, tail) = s.split_at(from);
    tail
}

} // verus!
