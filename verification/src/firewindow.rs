//! Fire-window detection: the recorder's usercmd attack button is what makes
//! the server fire, and a legitimate client always pairs it with
//! `+attack`/`-attack` console commands. A span of held attack button that
//! overlaps no console press/release window (within a tick tolerance) means
//! the button state was injected.
use crate::triggerbot::{attack_kind, classify_command, resolve_recorder, recorder_after, AttackCmd, ConsoleCmd};
use vstd::prelude::*;

verus! {

/// One usercmd of the recorder: its tick and, when sent, the full button
/// mask (buttons are delta-encoded, so an absent mask keeps the last one).
#[derive(Clone, Copy, Debug, PartialEq, Eq)]
pub struct UserCmd {
    pub tick: u32,
    pub buttons: Option<u32>,
}

/// The console side: how deep `+attack` is held, where the open press
/// started, and the closed press/release windows.
pub struct ConsoleState {
    pub depth: int,
    pub open_press: Option<u32>,
    pub windows: Seq<(u32, u32)>,
}

pub open spec fn console_step(st: ConsoleState, c: ConsoleCmd) -> ConsoleState {
    match attack_kind(c.command@) {
        AttackCmd::Press => ConsoleState {
            depth: st.depth + 1,
            open_press: if st.depth == 0 {
                Some(c.tick)
            } else {
                st.open_press
            },
            windows: st.windows,
        },
        AttackCmd::Release => {
            let d = if st.depth - 1 > 0 {
                st.depth - 1
            } else {
                0
            };
            if d == 0 && st.open_press is Some {
                ConsoleState {
                    depth: d,
                    open_press: None,
                    windows: st.windows.push((st.open_press->0, c.tick)),
                }
            } else {
                ConsoleState { depth: d, ..st }
            }
        },
        AttackCmd::Other => st,
    }
}

pub open spec fn console_fold(st: ConsoleState, cmds: Seq<ConsoleCmd>) -> ConsoleState
    decreases cmds.len(),
{
    if cmds.len() == 0 {
        st
    } else {
        console_step(console_fold(st, cmds.drop_last()), cmds.last())
    }
}

/// The button side: the last full mask, whether attack is held, where the
/// open held span started, and the closed spans awaiting judgement.
pub struct ButtonState {
    pub last_buttons: Option<u32>,
    pub held: bool,
    pub span_start: Option<u32>,
    pub pending: Seq<(u32, u32)>,
}

pub open spec fn button_step(st: ButtonState, c: UserCmd) -> ButtonState {
    let last = if c.buttons is Some {
        c.buttons
    } else {
        st.last_buttons
    };
    let held = last is Some && last->0 & 1 != 0;
    if held && !st.held {
        ButtonState { last_buttons: last, held, span_start: Some(c.tick), pending: st.pending }
    } else if !held && st.held && st.span_start is Some {
        ButtonState {
            last_buttons: last,
            held,
            span_start: None,
            pending: st.pending.push((st.span_start->0, c.tick)),
        }
    } else {
        ButtonState { last_buttons: last, held, ..st }
    }
}

pub open spec fn button_fold(st: ButtonState, cmds: Seq<UserCmd>) -> ButtonState
    decreases cmds.len(),
{
    if cmds.len() == 0 {
        st
    } else {
        button_step(button_fold(st, cmds.drop_last()), cmds.last())
    }
}

/// `a + b`, capped at `u32::MAX`.
pub open spec fn sat_add(a: u32, b: u32) -> int {
    if a + b > u32::MAX {
        u32::MAX as int
    } else {
        a + b
    }
}

/// A span can be judged once no later console window could still explain it:
/// it was still held at the end of the demo, or its release lies more than
/// the tolerance behind `now`.
pub open spec fn span_due(span: (u32, u32), now: u32, tol: u32) -> bool {
    span.1 == u32::MAX || now > span.1 + tol
}

/// A span is explained when it overlaps a console window, or the open press,
/// within the tolerance.
pub open spec fn span_explained(
    windows: Seq<(u32, u32)>,
    open_press: Option<u32>,
    tol: u32,
    span: (u32, u32),
) -> bool {
    ||| exists|i: int|
        0 <= i < windows.len() && span.0 <= sat_add((#[trigger] windows[i]).1, tol) && sat_add(
            span.1,
            tol,
        ) >= windows[i].0
    ||| open_press is Some && sat_add(span.0, tol) >= open_press->0
}

/// The spans still waiting after a judgement at `now`.
pub open spec fn still_pending(spans: Seq<(u32, u32)>, now: u32, tol: u32) -> Seq<(u32, u32)>
    decreases spans.len(),
{
    if spans.len() == 0 {
        spans
    } else {
        let rest = still_pending(spans.drop_last(), now, tol);
        if span_due(spans.last(), now, tol) {
            rest
        } else {
            rest.push(spans.last())
        }
    }
}

/// The spans flagged by a judgement at `now`: due and unexplained.
pub open spec fn flagged(
    spans: Seq<(u32, u32)>,
    now: u32,
    tol: u32,
    windows: Seq<(u32, u32)>,
    open_press: Option<u32>,
) -> Seq<(u32, u32)>
    decreases spans.len(),
{
    if spans.len() == 0 {
        spans
    } else {
        let rest = flagged(spans.drop_last(), now, tol, windows, open_press);
        let s = spans.last();
        if span_due(s, now, tol) && !span_explained(windows, open_press, tol, s) {
            rest.push(s)
        } else {
            rest
        }
    }
}

/// A flag: a held-button span with no console command near it.
#[derive(Clone, Copy, Debug, PartialEq, Eq)]
pub struct FireFlag {
    /// The tick the button went down.
    pub start: u32,
    /// The tick it came up, or `u32::MAX` when it was still held at the end.
    pub end: u32,
    pub tolerance: u32,
    pub player: u64,
}

pub open spec fn fire_flags_match(out: Seq<FireFlag>, spans: Seq<(u32, u32)>, tol: u32, player: u64) -> bool {
    &&& out.len() == spans.len()
    &&& forall|i: int|
        0 <= i < out.len() ==> (#[trigger] out[i]) == (FireFlag {
            start: spans[i].0,
            end: spans[i].1,
            tolerance: tol,
            player,
        })
}

/// The fire-window detector.
pub struct FireWindow {
    next_cmd: usize,
    attack_depth: i32,
    recorder_sid: Option<u64>,
    open_press: Option<u32>,
    windows: Vec<(u32, u32)>,
    last_buttons: Option<u32>,
    attack_held: bool,
    span_start: Option<u32>,
    pending_spans: Vec<(u32, u32)>,
    tolerance: i32,
}

/// The detector's state.
pub struct FireWindowModel {
    pub next_cmd: nat,
    pub recorder: Option<u64>,
    pub console: ConsoleState,
    pub buttons: ButtonState,
    pub tolerance: int,
}

impl View for FireWindow {
    type V = FireWindowModel;

    closed spec fn view(&self) -> FireWindowModel {
        FireWindowModel {
            next_cmd: self.next_cmd as nat,
            recorder: self.recorder_sid,
            console: ConsoleState {
                depth: self.attack_depth as int,
                open_press: self.open_press,
                windows: self.windows@,
            },
            buttons: ButtonState {
                last_buttons: self.last_buttons,
                held: self.attack_held,
                span_start: self.span_start,
                pending: self.pending_spans@,
            },
            tolerance: self.tolerance as int,
        }
    }
}

/// The tolerance as used: negative settings count as zero.
pub open spec fn effective_tolerance(m: FireWindowModel) -> u32 {
    if m.tolerance < 0 {
        0
    } else {
        m.tolerance as u32
    }
}

/// A span whose release can be compared against `now + tolerance` without overflow.
pub open spec fn span_fits(span: (u32, u32), tol: u32) -> bool {
    span.1 == u32::MAX || span.1 + tol <= u32::MAX
}

/// The detector's invariant.
pub open spec fn fire_wf(m: FireWindowModel) -> bool {
    &&& 0 <= m.console.depth <= m.next_cmd
    &&& forall|i: int|
        0 <= i < m.buttons.pending.len() ==> span_fits(
            #[trigger] m.buttons.pending[i],
            effective_tolerance(m),
        )
}

/// Running the console commands of one tick, from `from` on.
pub open spec fn console_after(m: FireWindowModel, cmds: Seq<ConsoleCmd>) -> ConsoleState {
    if m.next_cmd >= cmds.len() {
        m.console
    } else {
        console_fold(m.console, cmds.subrange(m.next_cmd as int, cmds.len() as int))
    }
}

proof fn lemma_console_depth(st: ConsoleState, cmds: Seq<ConsoleCmd>)
    requires
        st.depth >= 0,
    ensures
        0 <= console_fold(st, cmds).depth <= st.depth + cmds.len(),
    decreases cmds.len(),
{
    if cmds.len() > 0 {
        lemma_console_depth(st, cmds.drop_last());
    }
}

proof fn lemma_button_pending(st: ButtonState, cmds: Seq<UserCmd>, tol: u32)
    requires
        forall|i: int| 0 <= i < st.pending.len() ==> span_fits(#[trigger] st.pending[i], tol),
        forall|i: int| 0 <= i < cmds.len() ==> (#[trigger] cmds[i]).tick + tol <= u32::MAX,
    ensures
        forall|i: int|
            0 <= i < button_fold(st, cmds).pending.len() ==> span_fits(
                #[trigger] button_fold(st, cmds).pending[i],
                tol,
            ),
    decreases cmds.len(),
{
    if cmds.len() > 0 {
        lemma_button_pending(st, cmds.drop_last(), tol);
    }
}

proof fn lemma_still_pending_fits(spans: Seq<(u32, u32)>, now: u32, tol: u32)
    requires
        forall|i: int| 0 <= i < spans.len() ==> span_fits(#[trigger] spans[i], tol),
    ensures
        forall|i: int|
            0 <= i < still_pending(spans, now, tol).len() ==> span_fits(
                #[trigger] still_pending(spans, now, tol)[i],
                tol,
            ),
    decreases spans.len(),
{
    if spans.len() > 0 {
        let d = spans.drop_last();
        assert forall|i: int| 0 <= i < d.len() implies span_fits(#[trigger] d[i], tol) by {
            assert(d[i] == spans[i]);
        }
        assert(span_fits(spans[spans.len() - 1], tol));
        lemma_still_pending_fits(d, now, tol);
        let sp = still_pending(spans, now, tol);
        let rest = still_pending(d, now, tol);
        assert forall|i: int| 0 <= i < sp.len() implies span_fits(#[trigger] sp[i], tol) by {
            if i < rest.len() {
                assert(sp[i] == rest[i]);
            }
        }
    }
}

impl FireWindow {
    /// A detector with the default tolerance of 8 ticks.
    pub fn new() -> (f: Self)
        ensures
            f@.next_cmd == 0,
            f@.recorder is None,
            f@.console == (ConsoleState { depth: 0, open_press: None, windows: Seq::empty() }),
            f@.buttons == (ButtonState {
                last_buttons: None,
                held: false,
                span_start: None,
                pending: Seq::empty(),
            }),
            f@.tolerance == 8,
            fire_wf(f@),
    {
        Self {
            next_cmd: 0,
            attack_depth: 0,
            recorder_sid: None,
            open_press: None,
            windows: Vec::new(),
            last_buttons: None,
            attack_held: false,
            span_start: None,
            pending_spans: Vec::new(),
            tolerance: 8,
        }
    }

    /// The name under which this detector reports.
    pub fn algorithm_name(&self) -> (n: &'static str)
        ensures
            n@ == seq!['f', 'i', 'r', 'e', 'w', 'i', 'n', 'd', 'o', 'w'],
    {
        let n = "firewindow";
        proof {
            reveal_strlit("firewindow");
        }
        n
    }

    /// The `fire_window_tolerance` parameter: how far a button span may sit
    /// from a console window before it counts as injected.
    pub fn tolerance(&self) -> (t: i32)
        ensures
            t as int == self@.tolerance,
    {
        self.tolerance
    }

    /// Sets the tolerance; every span still waiting must stay comparable.
    pub fn set_tolerance(&mut self, tolerance: i32)
        requires
            forall|i: int|
                0 <= i < old(self)@.buttons.pending.len() ==> span_fits(
                    #[trigger] old(self)@.buttons.pending[i],
                    if tolerance < 0 {
                        0u32
                    } else {
                        tolerance as u32
                    },
                ),
            0 <= old(self)@.console.depth <= old(self)@.next_cmd,
        ensures
            final(self)@ == (FireWindowModel { tolerance: tolerance as int, ..old(self)@ }),
            fire_wf(final(self)@),
    {
        self.tolerance = tolerance;
    }

    /// Judges every pending span that is due at `now`: flags those no console
    /// window explains and keeps the rest waiting.
    fn eval_pending_spans(&mut self, now: u32) -> (r: Vec<FireFlag>)
        requires
            fire_wf(old(self)@),
        ensures
            final(self)@ == (FireWindowModel {
                buttons: ButtonState {
                    pending: still_pending(
                        old(self)@.buttons.pending,
                        now,
                        effective_tolerance(old(self)@),
                    ),
                    ..old(self)@.buttons
                },
                ..old(self)@
            }),
            fire_flags_match(
                r@,
                flagged(
                    old(self)@.buttons.pending,
                    now,
                    effective_tolerance(old(self)@),
                    old(self)@.console.windows,
                    old(self)@.console.open_press,
                ),
                effective_tolerance(old(self)@),
                match old(self)@.recorder {
                    Some(s) => s,
                    None => 0,
                },
            ),
            fire_wf(final(self)@),
    {
        let tol: u32 = if self.tolerance < 0 {
            0
        } else {
            self.tolerance as u32
        };
        let player = match self.recorder_sid {
            Some(s) => s,
            None => 0,
        };
        let ghost spans = self.pending_spans@;
        let mut out: Vec<FireFlag> = Vec::new();
        let mut waiting: Vec<(u32, u32)> = Vec::new();
        let mut i: usize = 0;
        while i < self.pending_spans.len()
            invariant
                i <= self.pending_spans.len(),
                self.pending_spans@ == spans,
                tol == effective_tolerance(old(self)@),
                self@ == old(self)@,
                forall|j: int| 0 <= j < spans.len() ==> span_fits(#[trigger] spans[j], tol),
                waiting@ == still_pending(spans.subrange(0, i as int), now, tol),
                fire_flags_match(
                    out@,
                    flagged(
                        spans.subrange(0, i as int),
                        now,
                        tol,
                        self.windows@,
                        self.open_press,
                    ),
                    tol,
                    player,
                ),
                player == (match old(self)@.recorder {
                    Some(s) => s,
                    None => 0,
                }),
            decreases self.pending_spans.len() - i,
        {
            let (s, e) = self.pending_spans[i];
            let ghost pre = spans.subrange(0, i as int);
            let ghost post = spans.subrange(0, i + 1);
            assert(post.drop_last() == pre);
            assert(post.last() == spans[i as int]);
            assert(span_fits(spans[i as int], tol));
            if e != u32::MAX && now <= e + tol {
                waiting.push((s, e));
            } else {
                let explained = self.explained(s, e, tol);
                if !explained {
                    out.push(FireFlag { start: s, end: e, tolerance: tol, player });
                }
            }
            i += 1;
        }
        assert(spans.subrange(0, spans.len() as int) == spans);
        proof {
            lemma_still_pending_fits(spans, now, tol);
        }
        self.pending_spans = waiting;
        out
    }

    /// Whether a console window or the open press explains the span `(s, e)`.
    fn explained(&self, s: u32, e: u32, tol: u32) -> (b: bool)
        ensures
            b == span_explained(self@.console.windows, self@.console.open_press, tol, (s, e)),
    {
        let mut k: usize = 0;
        while k < self.windows.len()
            invariant
                k <= self.windows.len(),
                forall|j: int|
                    0 <= j < k ==> !(s <= sat_add((#[trigger] self.windows@[j]).1, tol) && sat_add(
                        e,
                        tol,
                    ) >= self.windows@[j].0),
            decreases self.windows.len() - k,
        {
            let (p, r) = self.windows[k];
            if s <= r.saturating_add(tol) && e.saturating_add(tol) >= p {
                assert(self.windows@[k as int] == (p, r));
                return true;
            }
            k += 1;
        }
        match self.open_press {
            Some(p) => s.saturating_add(tol) >= p,
            None => false,
        }
    }

    /// Runs the console commands logged since the last tick.
    fn read_console(&mut self, console_cmds: &Vec<ConsoleCmd>)
        requires
            fire_wf(old(self)@),
            console_cmds@.len() <= i32::MAX,
        ensures
            final(self)@ == (FireWindowModel {
                next_cmd: if old(self)@.next_cmd >= console_cmds@.len() {
                    old(self)@.next_cmd
                } else {
                    console_cmds@.len()
                },
                console: console_after(old(self)@, console_cmds@),
                ..old(self)@
            }),
            fire_wf(final(self)@),
    {
        if self.next_cmd >= console_cmds.len() {
            return;
        }
        let ghost from = self.next_cmd as int;
        let ghost st0 = self@.console;
        while self.next_cmd < console_cmds.len()
            invariant
                from <= self.next_cmd <= console_cmds.len(),
                console_cmds@.len() <= i32::MAX,
                0 <= st0.depth <= from,
                self@.console == console_fold(
                    st0,
                    console_cmds@.subrange(from, self.next_cmd as int),
                ),
                self@ == (FireWindowModel {
                    next_cmd: self.next_cmd as nat,
                    console: self@.console,
                    ..old(self)@
                }),
                fire_wf(old(self)@),
            decreases console_cmds.len() - self.next_cmd,
        {
            let ghost pre = console_cmds@.subrange(from, self.next_cmd as int);
            let ghost post = console_cmds@.subrange(from, self.next_cmd + 1);
            assert(post.drop_last() == pre);
            assert(post.last() == console_cmds@[self.next_cmd as int]);
            proof {
                lemma_console_depth(st0, pre);
            }
            let t = console_cmds[self.next_cmd].tick;
            let kind = classify_command(console_cmds[self.next_cmd].command.as_str());
            self.next_cmd += 1;
            match kind {
                AttackCmd::Press => {
                    if self.attack_depth == 0 {
                        self.open_press = Some(t);
                    }
                    self.attack_depth += 1;
                },
                AttackCmd::Release => {
                    self.attack_depth = if self.attack_depth - 1 > 0 {
                        self.attack_depth - 1
                    } else {
                        0
                    };
                    if self.attack_depth == 0 {
                        match self.open_press {
                            Some(p) => {
                                self.open_press = None;
                                self.windows.push((p, t));
                            },
                            None => {},
                        }
                    }
                },
                AttackCmd::Other => {},
            }
        }
        proof {
            lemma_console_depth(st0, console_cmds@.subrange(from, console_cmds@.len() as int));
        }
    }

    /// Runs the usercmds received since the last tick through the button
    /// tracker, opening and closing held-attack spans.
    fn read_buttons(&mut self, user_cmds: &Vec<UserCmd>)
        requires
            fire_wf(old(self)@),
            forall|i: int|
                0 <= i < user_cmds@.len() ==> (#[trigger] user_cmds@[i]).tick + effective_tolerance(
                    old(self)@,
                ) <= u32::MAX,
        ensures
            final(self)@ == (FireWindowModel {
                buttons: button_fold(old(self)@.buttons, user_cmds@),
                ..old(self)@
            }),
            fire_wf(final(self)@),
    {
        let ghost st0 = self@.buttons;
        let mut i: usize = 0;
        while i < user_cmds.len()
            invariant
                i <= user_cmds.len(),
                self@ == (FireWindowModel {
                    buttons: button_fold(st0, user_cmds@.subrange(0, i as int)),
                    ..old(self)@
                }),
                st0 == old(self)@.buttons,
            decreases user_cmds.len() - i,
        {
            let ghost pre = user_cmds@.subrange(0, i as int);
            let ghost post = user_cmds@.subrange(0, i + 1);
            assert(post.drop_last() == pre);
            assert(post.last() == user_cmds@[i as int]);
            let cmd = user_cmds[i];
            match cmd.buttons {
                Some(b) => {
                    self.last_buttons = Some(b);
                },
                None => {},
            }
            let held = match self.last_buttons {
                Some(b) => b & 1 != 0,
                None => false,
            };
            let t = cmd.tick;
            if held && !self.attack_held {
                self.span_start = Some(t);
            } else if !held && self.attack_held {
                match self.span_start {
                    Some(s) => {
                        self.span_start = None;
                        self.pending_spans.push((s, t));
                    },
                    None => {},
                }
            }
            self.attack_held = held;
            i += 1;
        }
        assert(user_cmds@.subrange(0, user_cmds@.len() as int) == user_cmds@);
        proof {
            lemma_button_pending(st0, user_cmds@, effective_tolerance(old(self)@));
        }
    }

    /// One tick at `tick`: looks the recorder up, reads the new console
    /// commands and usercmds, then judges the spans that are due.
    pub fn on_tick(
        &mut self,
        tick: u32,
        nick: Option<&str>,
        names: &Vec<(u64, String)>,
        console_cmds: &Vec<ConsoleCmd>,
        user_cmds: &Vec<UserCmd>,
    ) -> (r: Vec<FireFlag>)
        requires
            fire_wf(old(self)@),
            console_cmds@.len() <= i32::MAX,
            forall|i: int|
                0 <= i < user_cmds@.len() ==> (#[trigger] user_cmds@[i]).tick + effective_tolerance(
                    old(self)@,
                ) <= u32::MAX,
        ensures
            recorder_after(
                old(self)@.recorder,
                match nick {
                    Some(n) => Some(n@),
                    None => None,
                },
                names@,
                final(self)@.recorder,
            ),
            ({
                let tol = effective_tolerance(old(self)@);
                let console = console_after(old(self)@, console_cmds@);
                let buttons = button_fold(old(self)@.buttons, user_cmds@);
                &&& final(self)@.console == console
                &&& final(self)@.next_cmd == if old(self)@.next_cmd >= console_cmds@.len() {
                    old(self)@.next_cmd
                } else {
                    console_cmds@.len()
                }
                &&& final(self)@.buttons == (ButtonState {
                    pending: still_pending(buttons.pending, tick, tol),
                    ..buttons
                })
                &&& final(self)@.tolerance == old(self)@.tolerance
                &&& fire_flags_match(
                    r@,
                    flagged(buttons.pending, tick, tol, console.windows, console.open_press),
                    tol,
                    match final(self)@.recorder {
                        Some(s) => s,
                        None => 0,
                    },
                )
            }),
            fire_wf(final(self)@),
    {
        self.recorder_sid = resolve_recorder(self.recorder_sid, nick, names);
        self.read_console(console_cmds);
        self.read_buttons(user_cmds);
        self.eval_pending_spans(tick)
    }

    /// At the end of the demo: a span still held becomes pending with the
    /// "still held" end marker, and every due span is judged.
    pub fn finish(&mut self) -> (r: Vec<FireFlag>)
        requires
            fire_wf(old(self)@),
        ensures
            ({
                let tol = effective_tolerance(old(self)@);
                let pending = if old(self)@.buttons.span_start is Some {
                    old(self)@.buttons.pending.push((old(self)@.buttons.span_start->0, u32::MAX))
                } else {
                    old(self)@.buttons.pending
                };
                &&& final(self)@.buttons.span_start is None
                &&& final(self)@.buttons.pending == still_pending(pending, u32::MAX, tol)
                &&& fire_flags_match(
                    r@,
                    flagged(
                        pending,
                        u32::MAX,
                        tol,
                        old(self)@.console.windows,
                        old(self)@.console.open_press,
                    ),
                    tol,
                    match old(self)@.recorder {
                        Some(s) => s,
                        None => 0,
                    },
                )
            }),
            fire_wf(final(self)@),
    {
        match self.span_start {
            Some(s) => {
                self.span_start = None;
                self.pending_spans.push((s, u32::MAX));
                assert forall|i: int| 0 <= i < self@.buttons.pending.len() implies span_fits(
                    #[trigger] self@.buttons.pending[i],
                    effective_tolerance(self@),
                ) by {
                    if i < old(self)@.buttons.pending.len() {
                        assert(self@.buttons.pending[i] == old(self)@.buttons.pending[i]);
                    }
                }
            },
            None => {},
        }
        self.eval_pending_spans(u32::MAX)
    }
}

} // verus!
