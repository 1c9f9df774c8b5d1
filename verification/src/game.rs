use crate::cell::all_representable;
use crate::cell_set::CellSet;
use crate::history::{recorded, History};
use crate::lexicon::Term;
use crate::life::{next_fits, tick};
use crate::rule::next_generation;
use crate::settings::Settings;
use vstd::prelude::*;

verus! {

/// Whether a periodic driver is asking for steps.
#[derive(Clone, Copy, Debug, PartialEq, Eq, Structural)]
pub enum Status {
    Idle,
    Running,
}

/// A request to the controller.
#[derive(Clone, Debug, PartialEq, Eq)]
pub enum Msg {
    /// Advance by one generation.
    NextTick,
    /// Start stepping periodically.
    Play,
    /// Stop stepping periodically.
    Pause,
    /// Step at another speed.
    ChangeSpeed(u8),
    /// Seed the grid from a pattern.
    ApplyPattern(Term),
}

/// What the host has to do with its periodic driver after a request.
#[derive(Clone, Copy, Debug, PartialEq, Eq, Structural)]
pub enum Command {
    /// Leave the driver as it is.
    Keep,
    /// Cancel the driver if one runs, ask for one step at once, and start a
    /// driver that asks for a step every `period_ms` milliseconds.
    Restart { period_ms: u32 },
    /// Cancel the driver. No further step is asked for.
    Cancel,
}

/// The controller's state as the contracts see it.
pub struct GameState {
    /// The live cells of the current generation.
    pub cells: Set<(int, int)>,
    /// Past generations, newest first.
    pub history: Seq<Set<(int, int)>>,
    /// Steps taken since the grid was last seeded.
    pub generation: nat,
    /// Idle until a play request, running until a pause request.
    pub status: Status,
    /// The speed that was asked for last.
    pub speed: u8,
    /// The size of the pattern that was applied last, until the next step.
    pub adjust_offset: Option<(usize, usize)>,
}

/// The pause between two steps at `speed`, in milliseconds: 500 less 50 for
/// each unit of speed, and never below zero.
pub open spec fn interval_millis(speed: u8) -> int {
    if speed <= 10 {
        500 - 50 * speed
    } else {
        0
    }
}

/// The state when nothing has happened yet.
pub open spec fn initial() -> GameState {
    GameState {
        cells: Set::empty(),
        history: Seq::empty(),
        generation: 0,
        status: Status::Idle,
        speed: 5,
        adjust_offset: None,
    }
}

/// The state one generation after `g`: the counter goes up by one, the
/// generation that was current goes to the front of the history, which keeps
/// at most `num_previous` entries, and the rule gives the new cells.
pub open spec fn advanced(g: GameState, num_previous: nat) -> GameState {
    GameState {
        cells: next_generation(g.cells),
        history: recorded(g.history, g.cells, num_previous),
        generation: g.generation + 1,
        adjust_offset: None,
        ..g
    }
}

/// The state after `term` is applied to `g`: its cells are the live ones,
/// the counter is back at zero and the history is empty.
pub open spec fn seeded(g: GameState, term: Term) -> GameState {
    GameState {
        cells: term.seed(),
        history: Seq::empty(),
        generation: 0,
        adjust_offset: Some((term.width, term.height)),
        ..g
    }
}

/// The state that follows `g` on the request `msg`.
pub open spec fn step(g: GameState, msg: Msg, num_previous: nat) -> GameState {
    match msg {
        Msg::NextTick => advanced(g, num_previous),
        Msg::Play => GameState { status: Status::Running, ..g },
        Msg::Pause => GameState { status: Status::Idle, ..g },
        Msg::ChangeSpeed(speed) => GameState { speed, ..g },
        Msg::ApplyPattern(term) => seeded(g, term),
    }
}

/// What the host is told to do when `msg` reaches the state `g`.
pub open spec fn command(g: GameState, msg: Msg) -> Command {
    match msg {
        Msg::Play => Command::Restart { period_ms: interval_millis(g.speed) as u32 },
        Msg::Pause => Command::Cancel,
        Msg::ChangeSpeed(speed) => if g.status == Status::Running {
            Command::Restart { period_ms: interval_millis(speed) as u32 }
        } else {
            Command::Keep
        },
        _ => Command::Keep,
    }
}

/// The state after `k` steps from `g`, each with the same history depth.
pub open spec fn after_ticks(g: GameState, k: nat, num_previous: nat) -> GameState
    decreases k,
{
    if k == 0 {
        g
    } else {
        advanced(after_ticks(g, (k - 1) as nat, num_previous), num_previous)
    }
}

/// Whether a step can be taken from `g` on this machine: the counter has
/// room for one more, and every cell of the next generation has coordinates
/// that fit in a `Cell`.
pub open spec fn can_advance(g: GameState) -> bool {
    g.generation < u32::MAX && all_representable(next_generation(g.cells))
}

/// The pause between two steps at `speed`, in milliseconds.
pub fn period_ms(speed: u8) -> (ms: u32)
    ensures
        ms == interval_millis(speed),
{
    if speed <= 10 {
        500 - 50 * (speed as u32)
    } else {
        0
    }
}

/// The controller: the current generation, the history of past ones, the
/// generation counter, and whether and how fast it is being driven.
#[derive(Debug)]
pub struct Game {
    cells: CellSet,
    previous_gens: History,
    tick: u32,
    status: Status,
    speed: u8,
    adjust_offset: Option<(usize, usize)>,
}

impl View for Game {
    type V = GameState;

    closed spec fn view(&self) -> GameState {
        GameState {
            cells: self.cells@,
            history: self.previous_gens@,
            generation: self.tick as nat,
            status: self.status,
            speed: self.speed,
            adjust_offset: self.adjust_offset,
        }
    }
}

impl Game {
    /// A controller at rest: no live cell, no history, generation zero.
    pub fn new() -> (game: Game)
        ensures
            game@ == initial(),
    {
        Game {
            cells: CellSet::new(),
            previous_gens: History::new(),
            tick: 0,
            status: Status::Idle,
            speed: 5,
            adjust_offset: None,
        }
    }

    /// The current generation.
    pub fn cells(&self) -> (cells: &CellSet)
        ensures
            cells@ == self@.cells,
    {
        &self.cells
    }

    /// The past generations, newest first.
    pub fn previous_gens(&self) -> (history: &History)
        ensures
            history@ == self@.history,
    {
        &self.previous_gens
    }

    /// The number of steps since the grid was last seeded.
    pub fn generation(&self) -> (n: u32)
        ensures
            n == self@.generation,
    {
        self.tick
    }

    /// Whether the controller is being driven.
    pub fn status(&self) -> (status: Status)
        ensures
            status == self@.status,
    {
        self.status
    }

    /// Whether the status is `Running`.
    pub fn is_running(&self) -> (running: bool)
        ensures
            running == (self@.status == Status::Running),
    {
        match self.status {
            Status::Running => true,
            Status::Idle => false,
        }
    }

    /// The speed that was asked for last.
    pub fn speed(&self) -> (speed: u8)
        ensures
            speed == self@.speed,
    {
        self.speed
    }

    /// The size of the pattern that was applied last, for the view to frame
    /// it. It is gone after the next step.
    pub fn adjust_offset(&self) -> (hint: Option<(usize, usize)>)
        ensures
            hint == self@.adjust_offset,
    {
        self.adjust_offset
    }

    /// Whether a step can be taken now.
    pub fn can_advance(&self) -> (ok: bool)
        ensures
            ok == can_advance(self@),
    {
        self.tick < u32::MAX && next_fits(&self.cells)
    }

    /// Advances by one generation.
    pub fn advance(&mut self, num_previous: usize)
        requires
            can_advance(old(self)@),
        ensures
            final(self)@ == advanced(old(self)@, num_previous as nat),
    {
        let next = tick(&self.cells);
        let mut previous = next;
        std::mem::swap(&mut previous, &mut self.cells);
        self.previous_gens.record(previous, num_previous);
        self.tick = self.tick + 1;
        self.adjust_offset = None;
    }

    /// Seeds the grid from `term`, whatever went before.
    pub fn apply_pattern(&mut self, term: &Term)
        ensures
            final(self)@ == seeded(old(self)@, *term),
    {
        self.cells = term.load();
        self.tick = 0;
        self.previous_gens.clear();
        self.adjust_offset = Some((term.width, term.height));
    }

    /// Takes one request and says what the host has to do with its periodic
    /// driver. A step can be asked for in either status and leaves the
    /// status as it is.
    pub fn update(&mut self, settings: &Settings, msg: Msg) -> (cmd: Command)
        requires
            msg is NextTick ==> can_advance(old(self)@),
        ensures
            final(self)@ == step(old(self)@, msg, settings.num_previous as nat),
            cmd == command(old(self)@, msg),
    {
        match msg {
            Msg::NextTick => {
                self.advance(settings.num_previous);
                Command::Keep
            },
            Msg::Play => {
                self.status = Status::Running;
                Command::Restart { period_ms: period_ms(self.speed) }
            },
            Msg::Pause => {
                self.status = Status::Idle;
                Command::Cancel
            },
            Msg::ChangeSpeed(speed) => {
                self.speed = speed;
                match self.status {
                    Status::Running => Command::Restart { period_ms: period_ms(speed) },
                    Status::Idle => Command::Keep,
                }
            },
            Msg::ApplyPattern(term) => {
                self.apply_pattern(&term);
                Command::Keep
            },
        }
    }
}

/// Steps from `g` under a fixed depth `num_previous` fill the history one
/// entry at a time until it holds `num_previous` entries, and it stays at
/// that length from then on. From an empty history that is the smaller of
/// the number of steps and the depth. A history that was longer than the
/// depth is cut down to it by the first step.
pub proof fn lemma_history_length_after_ticks(g: GameState, k: nat, num_previous: nat)
    ensures
        k >= 1 || g.history.len() <= num_previous ==> after_ticks(g, k, num_previous).history.len()
            == if g.history.len() + k <= num_previous {
            g.history.len() + k
        } else {
            num_previous
        },
        g.history.len() == 0 ==> after_ticks(g, k, num_previous).history.len() == if k
            <= num_previous {
            k
        } else {
            num_previous
        },
    decreases k,
{
    if k > 0 {
        lemma_history_length_after_ticks(g, (k - 1) as nat, num_previous);
    }
}

/// Applying a pattern empties the history, however long it was.
pub proof fn lemma_pattern_clears_history(g: GameState, term: Term, num_previous: nat)
    ensures
        step(g, Msg::ApplyPattern(term), num_previous).history.len() == 0,
{
}

/// Applying a pattern puts the generation counter back to zero, whatever it
/// was and whether or not the controller is running, and each step after
/// that adds exactly one.
pub proof fn lemma_generation_counter(g: GameState, term: Term, k: nat, num_previous: nat)
    ensures
        step(g, Msg::ApplyPattern(term), num_previous).generation == 0,
        step(g, Msg::NextTick, num_previous).generation == g.generation + 1,
        after_ticks(g, k, num_previous).generation == g.generation + k,
        after_ticks(step(g, Msg::ApplyPattern(term), num_previous), k, num_previous).generation
            == k,
    decreases k,
{
    if k > 0 {
        lemma_generation_counter(g, term, (k - 1) as nat, num_previous);
        lemma_generation_counter(
            step(g, Msg::ApplyPattern(term), num_previous),
            term,
            (k - 1) as nat,
            num_previous,
        );
    }
}

/// The cells that a pattern seeds depend on the pattern alone: two
/// controllers that apply the same pattern hold the same generation, and
/// applying it a second time changes nothing.
pub proof fn lemma_pattern_load_deterministic(
    g1: GameState,
    g2: GameState,
    term: Term,
    n1: nat,
    n2: nat,
)
    ensures
        step(g1, Msg::ApplyPattern(term), n1).cells == step(g2, Msg::ApplyPattern(term), n2).cells,
        step(step(g1, Msg::ApplyPattern(term), n1), Msg::ApplyPattern(term), n2) == step(
            g1,
            Msg::ApplyPattern(term),
            n1,
        ),
{
}

} // verus!
