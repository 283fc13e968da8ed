//! Gerber commands and what they draw. The interpreter follows the
//! command stream (units, apertures, aperture blocks, modes, regions,
//! step-and-repeat) and hands out the drawing primitives in order. It never computes with
//! a coordinate: coordinates, aperture definitions and repeat steps are
//! carried through as they were read, so that the caller can turn the
//! primitives into geometry.
use vstd::prelude::*;

verus! {

/// The picture a piece of board geometry is drawn into.
#[derive(Debug, Clone, Copy, PartialEq, Eq, Structural)]
pub enum LayerType {
    CopperTop,
    CopperBottom,
    Profile,
    Drill,
}

/// The unit coordinates are written in.
#[derive(Debug, Clone, Copy, PartialEq, Eq, Structural)]
pub enum GerberUnit {
    Millimeters,
    Inches,
}

/// How `Interpolate` moves from the current point to the target.
#[derive(Debug, Clone, Copy, PartialEq, Eq, Structural)]
pub enum Interpolation {
    Linear,
    Clockwise,
    Counterclockwise,
}

/// Whether circular moves may span more than a quarter turn.
#[derive(Debug, Clone, Copy, PartialEq, Eq, Structural)]
pub enum Quadrant {
    Single,
    Multi,
}

/// A coordinate as read from the file, with the unit in force then.
#[derive(Debug, Clone, Copy)]
pub struct Reading<C> {
    pub value: C,
    pub unit: GerberUnit,
}

/// A point: each axis is either a reading or still at zero.
#[derive(Debug, Clone, Copy)]
pub struct Position<C> {
    pub x: Option<Reading<C>>,
    pub y: Option<Reading<C>>,
}

/// The coordinates written in a command; an axis left out keeps its
/// value.
#[derive(Debug, Clone, Copy)]
pub struct Written<C> {
    pub x: Option<C>,
    pub y: Option<C>,
}

/// The commands of a Gerber file, as far as they change what is drawn.
/// Aperture definitions, aperture macros and repeat steps are given by
/// their number in the caller's lists of them.
#[derive(Debug, Clone, Copy)]
pub enum GerberCommand<C> {
    Unit(GerberUnit),
    ApertureDefinition { code: i32, definition: usize },
    ApertureMacro { definition: usize },
    /// The commands up to the matching close define the aperture with
    /// this code as a block; they are drawn where it is flashed.
    ApertureBlockOpen(i32),
    ApertureBlockClose,
    StepAndRepeatOpen { repeat_x: u32, repeat_y: u32, step: usize },
    StepAndRepeatClose,
    SelectAperture(i32),
    Move(Option<Written<C>>),
    /// Target, and the offset of the arc centre for circular moves.
    Interpolate(Option<Written<C>>, Option<Written<C>>),
    Flash(Option<Written<C>>),
    InterpolationMode(Interpolation),
    RegionMode(bool),
    QuadrantMode(Quadrant),
    /// A command that draws nothing and changes nothing drawn.
    Ignored,
}

/// What the interpreter asks to be drawn.
#[derive(Debug)]
pub enum Primitive<C> {
    /// A straight stroke with the aperture in use, if one is defined.
    Stroke { from: Position<C>, to: Position<C>, aperture: Option<usize>, unit: GerberUnit },
    /// A circular stroke around `from` moved by `offset`.
    Arc {
        from: Position<C>,
        to: Position<C>,
        offset: Position<C>,
        clockwise: bool,
        multi_quadrant: bool,
        aperture: Option<usize>,
        unit: GerberUnit,
    },
    /// The aperture's shape placed at a point.
    Flash { at: Position<C>, aperture: usize, unit: GerberUnit },
    /// A filled region through the points.
    Fill(Vec<Position<C>>),
    /// What is drawn from here on belongs to a repeated block.
    RepeatStart,
    /// The block since the last start is repeated on a `repeat_x` by
    /// `repeat_y` grid: it stays in place and a copy goes to every other
    /// cell.
    RepeatEnd { repeat_x: u32, repeat_y: u32, step: usize, unit: GerberUnit },
    /// An aperture macro is defined from here on.
    MacroDefined(usize),
    /// What is drawn from here up to `BlockEnd` is an aperture block,
    /// drawn relative to its own origin, and is placed at `at`.
    BlockPlaced { at: Position<C> },
    /// The end of a placed aperture block.
    BlockEnd,
}

/// How an aperture code is defined: by a definition in the caller's
/// list, or by the aperture block with this number.
#[derive(Debug, Clone, Copy, PartialEq, Eq, Structural)]
pub enum Defined {
    Listed(usize),
    Block(usize),
}

/// The mathematical value of a primitive.
pub ghost enum Drawn<C> {
    Stroke { from: Position<C>, to: Position<C>, aperture: Option<usize>, unit: GerberUnit },
    Arc {
        from: Position<C>,
        to: Position<C>,
        offset: Position<C>,
        clockwise: bool,
        multi_quadrant: bool,
        aperture: Option<usize>,
        unit: GerberUnit,
    },
    Flash { at: Position<C>, aperture: usize, unit: GerberUnit },
    Fill(Seq<Position<C>>),
    RepeatStart,
    RepeatEnd { repeat_x: u32, repeat_y: u32, step: usize, unit: GerberUnit },
    MacroDefined(usize),
    BlockPlaced { at: Position<C> },
    BlockEnd,
}

impl<C> View for Primitive<C> {
    type V = Drawn<C>;

    open spec fn view(&self) -> Drawn<C> {
        match self {
            Primitive::Stroke { from, to, aperture, unit } => Drawn::Stroke {
                from: *from,
                to: *to,
                aperture: *aperture,
                unit: *unit,
            },
            Primitive::Arc { from, to, offset, clockwise, multi_quadrant, aperture, unit } => Drawn::Arc {
                from: *from,
                to: *to,
                offset: *offset,
                clockwise: *clockwise,
                multi_quadrant: *multi_quadrant,
                aperture: *aperture,
                unit: *unit,
            },
            Primitive::Flash { at, aperture, unit } => Drawn::Flash { at: *at, aperture: *aperture, unit: *unit },
            Primitive::Fill(points) => Drawn::Fill(points@),
            Primitive::RepeatStart => Drawn::RepeatStart,
            Primitive::RepeatEnd { repeat_x, repeat_y, step, unit } => Drawn::RepeatEnd {
                repeat_x: *repeat_x,
                repeat_y: *repeat_y,
                step: *step,
                unit: *unit,
            },
            Primitive::MacroDefined(d) => Drawn::MacroDefined(*d),
            Primitive::BlockPlaced { at } => Drawn::BlockPlaced { at: *at },
            Primitive::BlockEnd => Drawn::BlockEnd,
        }
    }
}

/// What the interpreter keeps between commands.
pub ghost struct GerberState<C> {
    pub unit: GerberUnit,
    pub current: Position<C>,
    pub interpolation: Interpolation,
    pub quadrant: Quadrant,
    pub aperture: Option<i32>,
    /// Aperture codes with their definitions, in the order defined.
    pub apertures: Seq<(i32, Defined)>,
    pub in_region: bool,
    pub region: Seq<Position<C>>,
    /// The open repeat block: its counts and step.
    pub repeat: Option<(u32, u32, usize)>,
    /// The current point when the repeat block opened.
    pub saved: Position<C>,
    /// What each closed aperture block draws, in the order closed.
    pub blocks: Seq<Seq<Drawn<C>>>,
    /// The open aperture blocks, the innermost last: each with its code,
    /// what it draws so far, and the current point when it opened.
    pub recording: Seq<(i32, Seq<Drawn<C>>, Position<C>)>,
}

/// The origin.
pub open spec fn origin<C>() -> Position<C> {
    Position { x: None, y: None }
}

/// The state before the first command: millimetres, linear moves, multi
/// quadrant, at the origin, nothing defined or open.
pub open spec fn initial_state<C>() -> GerberState<C> {
    GerberState {
        unit: GerberUnit::Millimeters,
        current: origin(),
        interpolation: Interpolation::Linear,
        quadrant: Quadrant::Multi,
        aperture: None,
        apertures: Seq::empty(),
        in_region: false,
        region: Seq::empty(),
        repeat: None,
        saved: origin(),
        blocks: Seq::empty(),
        recording: Seq::empty(),
    }
}

/// The latest definition of an aperture code.
pub open spec fn definition_of(defs: Seq<(i32, Defined)>, code: i32) -> Option<Defined>
    decreases defs.len(),
{
    if defs.len() == 0 {
        None
    } else if defs.last().0 == code {
        Some(defs.last().1)
    } else {
        definition_of(defs.drop_last(), code)
    }
}

/// How the aperture in use is defined, if it is.
pub open spec fn selected_entry<C>(st: GerberState<C>) -> Option<Defined> {
    match st.aperture {
        Some(code) => definition_of(st.apertures, code),
        None => None,
    }
}

/// The listed definition of the aperture in use, if it has one.
pub open spec fn selected<C>(st: GerberState<C>) -> Option<usize> {
    match selected_entry(st) {
        Some(Defined::Listed(d)) => Some(d),
        _ => None,
    }
}

/// What a flash at `at` draws with the aperture in use: its listed
/// shape, or its aperture block placed there.
pub open spec fn flashed<C>(st: GerberState<C>, at: Position<C>) -> Seq<Drawn<C>> {
    match selected_entry(st) {
        Some(Defined::Listed(aperture)) => seq![Drawn::Flash { at, aperture, unit: st.unit }],
        Some(Defined::Block(b)) => if b < st.blocks.len() {
            seq![Drawn::BlockPlaced { at }] + st.blocks[b as int] + seq![Drawn::BlockEnd]
        } else {
            Seq::empty()
        },
        None => Seq::empty(),
    }
}

/// A reading of a written coordinate in the unit in force.
pub open spec fn read_axis<C>(v: Option<C>, unit: GerberUnit) -> Option<Reading<C>> {
    match v {
        Some(value) => Some(Reading { value, unit }),
        None => None,
    }
}

/// The point a command names: written axes read in the unit in force,
/// the others kept from the current point; no coordinates at all keep
/// the current point.
pub open spec fn target_of<C>(w: Option<Written<C>>, unit: GerberUnit, current: Position<C>) -> Position<C> {
    match w {
        Some(w) => Position {
            x: if w.x is Some { read_axis(w.x, unit) } else { current.x },
            y: if w.y is Some { read_axis(w.y, unit) } else { current.y },
        },
        None => current,
    }
}

/// The offset of an arc centre: written axes read in the unit in force,
/// the others zero.
pub open spec fn offset_of<C>(w: Option<Written<C>>, unit: GerberUnit) -> Position<C> {
    match w {
        Some(w) => Position { x: read_axis(w.x, unit), y: read_axis(w.y, unit) },
        None => origin(),
    }
}

/// One command other than those that open and close aperture blocks:
/// the next state, and what it draws.
pub open spec fn step_plain<C>(st: GerberState<C>, cmd: GerberCommand<C>) -> (GerberState<C>, Seq<Drawn<C>>) {
    match cmd {
        GerberCommand::Unit(u) => (GerberState { unit: u, ..st }, Seq::empty()),
        GerberCommand::ApertureDefinition { code, definition } => (
            GerberState { apertures: st.apertures.push((code, Defined::Listed(definition))), ..st },
            Seq::empty(),
        ),
        GerberCommand::ApertureMacro { definition } => (st, seq![Drawn::MacroDefined(definition)]),
        GerberCommand::StepAndRepeatOpen { repeat_x, repeat_y, step } => (
            GerberState { repeat: Some((repeat_x, repeat_y, step)), saved: st.current, ..st },
            seq![Drawn::RepeatStart],
        ),
        GerberCommand::StepAndRepeatClose => match st.repeat {
            Some((repeat_x, repeat_y, step)) => (
                GerberState { repeat: None, current: st.saved, ..st },
                seq![Drawn::RepeatEnd { repeat_x, repeat_y, step, unit: st.unit }],
            ),
            None => (st, Seq::empty()),
        },
        GerberCommand::SelectAperture(code) => (GerberState { aperture: Some(code), ..st }, Seq::empty()),
        GerberCommand::Move(w) => (GerberState { current: target_of(w, st.unit, st.current), ..st }, Seq::empty()),
        GerberCommand::Interpolate(w, o) => {
            let to = target_of(w, st.unit, st.current);
            if st.in_region {
                (GerberState { current: to, region: st.region.push(to), ..st }, Seq::empty())
            } else {
                let drawn = match st.interpolation {
                    Interpolation::Linear => Drawn::Stroke {
                        from: st.current,
                        to,
                        aperture: selected(st),
                        unit: st.unit,
                    },
                    _ => Drawn::Arc {
                        from: st.current,
                        to,
                        offset: offset_of(o, st.unit),
                        clockwise: st.interpolation == Interpolation::Clockwise,
                        multi_quadrant: st.quadrant == Quadrant::Multi,
                        aperture: selected(st),
                        unit: st.unit,
                    },
                };
                (GerberState { current: to, ..st }, seq![drawn])
            }
        },
        GerberCommand::Flash(w) => {
            let at = target_of(w, st.unit, st.current);
            (GerberState { current: at, ..st }, flashed(st, at))
        },
        GerberCommand::InterpolationMode(m) => (GerberState { interpolation: m, ..st }, Seq::empty()),
        GerberCommand::RegionMode(true) => (
            GerberState { in_region: true, region: Seq::empty(), ..st },
            Seq::empty(),
        ),
        GerberCommand::RegionMode(false) => (
            GerberState { in_region: false, region: Seq::empty(), ..st },
            if st.region.len() >= 3 {
                seq![Drawn::Fill(st.region)]
            } else {
                Seq::empty()
            },
        ),
        GerberCommand::QuadrantMode(q) => (GerberState { quadrant: q, ..st }, Seq::empty()),
        _ => (st, Seq::empty()),
    }
}

/// One command: the next state, and what it draws. An aperture block
/// opens at its own origin and may hold other blocks; while it is open,
/// what its commands draw is recorded in it rather than drawn; when it
/// closes, the current point is back where it was when it opened and
/// its code names the block from then on.
pub open spec fn step<C>(st: GerberState<C>, cmd: GerberCommand<C>) -> (GerberState<C>, Seq<Drawn<C>>) {
    match cmd {
        GerberCommand::ApertureBlockOpen(code) => (
            GerberState { recording: st.recording.push((code, Seq::empty(), st.current)), current: origin(), ..st },
            Seq::empty(),
        ),
        GerberCommand::ApertureBlockClose => if st.recording.len() > 0 {
            let (code, drawn, saved) = st.recording.last();
            (
                GerberState {
                    recording: st.recording.drop_last(),
                    blocks: st.blocks.push(drawn),
                    apertures: st.apertures.push((code, Defined::Block(st.blocks.len() as usize))),
                    current: saved,
                    ..st
                },
                Seq::empty(),
            )
        } else {
            (st, Seq::empty())
        },
        _ => {
            let (next, drawn) = step_plain(st, cmd);
            if st.recording.len() > 0 {
                let (code, so_far, saved) = st.recording.last();
                (
                    GerberState { recording: st.recording.drop_last().push((code, so_far + drawn, saved)), ..next },
                    Seq::empty(),
                )
            } else {
                (next, drawn)
            }
        },
    }
}

/// The state after the first `n` commands, and everything they drew.
pub open spec fn run<C>(cmds: Seq<GerberCommand<C>>, n: int) -> (GerberState<C>, Seq<Drawn<C>>)
    decreases n,
{
    if n <= 0 {
        (initial_state(), Seq::empty())
    } else {
        let (st, drawn) = run(cmds, n - 1);
        let (next, more) = step(st, cmds[n - 1]);
        (next, drawn + more)
    }
}

/// Moves keep the mode set before them: outside a region and with no
/// aperture block open, an interpolation after `InterpolationMode(m)`
/// draws exactly one primitive from the current point to the target: a
/// straight stroke when `m` is linear, else an arc that is clockwise
/// exactly when `m` is clockwise.
pub proof fn lemma_interpolation_follows_mode<C>(
    st: GerberState<C>,
    m: Interpolation,
    w: Option<Written<C>>,
    o: Option<Written<C>>,
)
    requires
        !st.in_region,
        st.recording.len() == 0,
    ensures
        ({
            let mid = step(st, GerberCommand::InterpolationMode(m)).0;
            let drawn = step(mid, GerberCommand::Interpolate(w, o)).1;
            let to = target_of(w, st.unit, st.current);
            &&& drawn.len() == 1
            &&& m == Interpolation::Linear ==> drawn[0] == (Drawn::Stroke {
                from: st.current,
                to,
                aperture: selected(st),
                unit: st.unit,
            })
            &&& m != Interpolation::Linear ==> drawn[0] == (Drawn::Arc {
                from: st.current,
                to,
                offset: offset_of(o, st.unit),
                clockwise: m == Interpolation::Clockwise,
                multi_quadrant: st.quadrant == Quadrant::Multi,
                aperture: selected(st),
                unit: st.unit,
            })
        }),
{
}

/// A flash uses the latest definition of the code selected: after the
/// code is defined and selected, with no aperture block open, a flash
/// draws that definition once at the target, which becomes the current
/// point.
pub proof fn lemma_flash_uses_latest_definition<C>(
    st: GerberState<C>,
    code: i32,
    definition: usize,
    w: Option<Written<C>>,
)
    requires
        st.recording.len() == 0,
    ensures
        ({
            let s1 = step(st, GerberCommand::ApertureDefinition { code, definition }).0;
            let s2 = step(s1, GerberCommand::SelectAperture(code)).0;
            let (s3, drawn) = step(s2, GerberCommand::Flash(w));
            let at = target_of(w, st.unit, st.current);
            &&& drawn == seq![Drawn::Flash { at, aperture: definition, unit: st.unit }]
            &&& s3.current == at
        }),
{
    let s1 = step(st, GerberCommand::ApertureDefinition { code, definition }).0;
    assert(s1.apertures.last() == (code, Defined::Listed(definition)));
    assert(definition_of(s1.apertures, code) == Some(Defined::Listed(definition)));
}

/// A region is filled through the points it moves to: with no aperture
/// block open, a region of three interpolations draws nothing while it
/// is open and, when it closes, one fill through the three targets in
/// order; a region of two draws nothing at all.
pub proof fn lemma_region_fills_its_outline<C>(
    st: GerberState<C>,
    w1: Option<Written<C>>,
    w2: Option<Written<C>>,
    w3: Option<Written<C>>,
    o1: Option<Written<C>>,
    o2: Option<Written<C>>,
    o3: Option<Written<C>>,
)
    requires
        st.recording.len() == 0,
    ensures
        ({
            let s1 = step(st, GerberCommand::RegionMode(true)).0;
            let (s2, d2) = step(s1, GerberCommand::Interpolate(w1, o1));
            let (s3, d3) = step(s2, GerberCommand::Interpolate(w2, o2));
            let (s4, d4) = step(s3, GerberCommand::Interpolate(w3, o3));
            let t1 = target_of(w1, st.unit, st.current);
            let t2 = target_of(w2, st.unit, t1);
            let t3 = target_of(w3, st.unit, t2);
            &&& d2.len() == 0 && d3.len() == 0 && d4.len() == 0
            &&& step(s4, GerberCommand::RegionMode(false)).1 == seq![Drawn::Fill(seq![t1, t2, t3])]
            &&& step(s3, GerberCommand::RegionMode(false)).1.len() == 0
        }),
{
    let s1 = step(st, GerberCommand::RegionMode(true)).0;
    let s2 = step(s1, GerberCommand::Interpolate(w1, o1)).0;
    let s3 = step(s2, GerberCommand::Interpolate(w2, o2)).0;
    let s4 = step(s3, GerberCommand::Interpolate(w3, o3)).0;
    let t1 = target_of(w1, st.unit, st.current);
    let t2 = target_of(w2, st.unit, t1);
    let t3 = target_of(w3, st.unit, t2);
    assert(s1.region =~= Seq::<Position<C>>::empty());
    assert(s2.region =~= seq![t1]);
    assert(s3.region =~= seq![t1, t2]);
    assert(s4.region =~= seq![t1, t2, t3]);
}

/// Coordinates are read in the unit in force: after `Unit(u)`, with no
/// aperture block open, a move to written coordinates makes the current
/// point those coordinates in unit `u`, and one that leaves an axis out
/// keeps that axis.
pub proof fn lemma_moves_read_the_unit_in_force<C>(st: GerberState<C>, u: GerberUnit, x: Option<C>, y: Option<C>)
    requires
        st.recording.len() == 0,
    ensures
        ({
            let s1 = step(st, GerberCommand::Unit(u)).0;
            let (s2, drawn) = step(s1, GerberCommand::Move(Some(Written { x, y })));
            &&& drawn.len() == 0
            &&& s2.current.x == match x {
                Some(v) => Some(Reading { value: v, unit: u }),
                None => st.current.x,
            }
            &&& s2.current.y == match y {
                Some(v) => Some(Reading { value: v, unit: u }),
                None => st.current.y,
            }
        }),
{
}

/// A repeated block is marked and returns to where it began: with no
/// aperture block open, opening a step-and-repeat marks its start, and
/// closing it marks its end with its counts, step and unit, and puts the
/// current point back where it was when the block opened.
pub proof fn lemma_repeat_marks_and_returns<C>(
    st: GerberState<C>,
    repeat_x: u32,
    repeat_y: u32,
    distance: usize,
    w: Option<Written<C>>,
)
    requires
        st.recording.len() == 0,
    ensures
        ({
            let (s1, d1) = step(st, GerberCommand::StepAndRepeatOpen { repeat_x, repeat_y, step: distance });
            let s2 = step(s1, GerberCommand::Move(w)).0;
            let (s3, d3) = step(s2, GerberCommand::StepAndRepeatClose);
            &&& d1 == seq![Drawn::<C>::RepeatStart]
            &&& d3 == seq![Drawn::<C>::RepeatEnd { repeat_x, repeat_y, step: distance, unit: st.unit }]
            &&& s3.current == st.current
        }),
{
}

/// The interpreter's state while it runs.
struct Interpreter<C> {
    unit: GerberUnit,
    current: Position<C>,
    interpolation: Interpolation,
    quadrant: Quadrant,
    aperture: Option<i32>,
    apertures: Vec<(i32, Defined)>,
    in_region: bool,
    region: Vec<Position<C>>,
    repeat: Option<(u32, u32, usize)>,
    saved: Position<C>,
    blocks: Vec<Vec<Primitive<C>>>,
    recording: Vec<(i32, Vec<Primitive<C>>, Position<C>)>,
}

/// The mathematical value of a list of primitives.
pub open spec fn drawn_of<C>(v: Seq<Primitive<C>>) -> Seq<Drawn<C>> {
    v.map_values(|p: Primitive<C>| p@)
}

proof fn lemma_drawn_push<C>(v: Seq<Primitive<C>>, p: Primitive<C>)
    ensures
        drawn_of(v.push(p)) == drawn_of(v).push(p@),
{
    assert(drawn_of(v.push(p)) =~= drawn_of(v).push(p@));
}

impl<C> Interpreter<C> {
    spec fn state(&self) -> GerberState<C> {
        GerberState {
            unit: self.unit,
            current: self.current,
            interpolation: self.interpolation,
            quadrant: self.quadrant,
            aperture: self.aperture,
            apertures: self.apertures@,
            in_region: self.in_region,
            region: self.region@,
            repeat: self.repeat,
            saved: self.saved,
            blocks: self.blocks@.map_values(|b: Vec<Primitive<C>>| drawn_of(b@)),
            recording: self.recording@.map_values(
                |e: (i32, Vec<Primitive<C>>, Position<C>)| (e.0, drawn_of(e.1@), e.2),
            ),
        }
    }
}

/// The latest definition of an aperture code.
fn lookup_definition(defs: &Vec<(i32, Defined)>, code: i32) -> (r: Option<Defined>)
    ensures
        r == definition_of(defs@, code),
{
    let mut i = defs.len();
    assert(defs@.take(i as int) =~= defs@);
    while i > 0
        invariant
            i <= defs@.len(),
            definition_of(defs@, code) == definition_of(defs@.take(i as int), code),
        decreases i,
    {
        let entry = defs[i - 1];
        assert(defs@.take(i as int).drop_last() =~= defs@.take(i - 1));
        if entry.0 == code {
            return Some(entry.1);
        }
        i -= 1;
    }
    None
}

/// The point a command names (see `target_of`).
fn read_target<C: Copy>(w: Option<Written<C>>, unit: GerberUnit, current: Position<C>) -> (r: Position<C>)
    ensures
        r == target_of(w, unit, current),
{
    match w {
        Some(w) => Position {
            x: match w.x {
                Some(value) => Some(Reading { value, unit }),
                None => current.x,
            },
            y: match w.y {
                Some(value) => Some(Reading { value, unit }),
                None => current.y,
            },
        },
        None => current,
    }
}

/// The offset of an arc centre (see `offset_of`).
fn read_offset<C: Copy>(w: Option<Written<C>>, unit: GerberUnit) -> (r: Position<C>)
    ensures
        r == offset_of(w, unit),
{
    match w {
        Some(w) => Position {
            x: match w.x {
                Some(value) => Some(Reading { value, unit }),
                None => None,
            },
            y: match w.y {
                Some(value) => Some(Reading { value, unit }),
                None => None,
            },
        },
        None => Position { x: None, y: None },
    }
}

impl<C: Copy> Interpreter<C> {
    fn new() -> (r: Self)
        ensures
            r.state() == initial_state::<C>(),
    {
        let r = Interpreter {
            unit: GerberUnit::Millimeters,
            current: Position { x: None, y: None },
            interpolation: Interpolation::Linear,
            quadrant: Quadrant::Multi,
            aperture: None,
            apertures: Vec::new(),
            in_region: false,
            region: Vec::new(),
            repeat: None,
            saved: Position { x: None, y: None },
            blocks: Vec::new(),
            recording: Vec::new(),
        };
        assert(r.blocks@.map_values(|b: Vec<Primitive<C>>| drawn_of(b@)) =~= Seq::<Seq<Drawn<C>>>::empty());
        assert(r.recording@.map_values(|e: (i32, Vec<Primitive<C>>, Position<C>)| (e.0, drawn_of(e.1@), e.2))
            =~= Seq::<(i32, Seq<Drawn<C>>, Position<C>)>::empty());
        assert(r.state() =~= initial_state::<C>());
        r
    }

    /// How the aperture in use is defined, if it is.
    fn selected_entry(&self) -> (r: Option<Defined>)
        ensures
            r == selected_entry(self.state()),
    {
        match self.aperture {
            Some(code) => lookup_definition(&self.apertures, code),
            None => None,
        }
    }

    /// Follows one command other than those that open and close aperture
    /// blocks, appending what it draws to `out`.
    fn apply_plain(&mut self, cmd: GerberCommand<C>, out: &mut Vec<Primitive<C>>)
        ensures
            final(self).state() == step_plain(old(self).state(), cmd).0,
            drawn_of(final(out)@) == drawn_of(old(out)@) + step_plain(old(self).state(), cmd).1,
    {
        let ghost out0 = drawn_of(out@);
        match cmd {
            GerberCommand::Unit(u) => {
                self.unit = u;
            },
            GerberCommand::ApertureDefinition { code, definition } => {
                self.apertures.push((code, Defined::Listed(definition)));
            },
            GerberCommand::ApertureMacro { definition } => {
                out.push(Primitive::MacroDefined(definition));
            },
            GerberCommand::StepAndRepeatOpen { repeat_x, repeat_y, step } => {
                self.repeat = Some((repeat_x, repeat_y, step));
                self.saved = self.current;
                out.push(Primitive::RepeatStart);
            },
            GerberCommand::StepAndRepeatClose => {
                if let Some((repeat_x, repeat_y, step)) = self.repeat {
                    self.repeat = None;
                    self.current = self.saved;
                    out.push(Primitive::RepeatEnd { repeat_x, repeat_y, step, unit: self.unit });
                }
            },
            GerberCommand::SelectAperture(code) => {
                self.aperture = Some(code);
            },
            GerberCommand::Move(w) => {
                self.current = read_target(w, self.unit, self.current);
            },
            GerberCommand::Interpolate(w, o) => {
                let to = read_target(w, self.unit, self.current);
                if self.in_region {
                    self.region.push(to);
                } else {
                    let aperture = match self.selected_entry() {
                        Some(Defined::Listed(d)) => Some(d),
                        _ => None,
                    };
                    let drawn = match self.interpolation {
                        Interpolation::Linear => Primitive::Stroke {
                            from: self.current,
                            to,
                            aperture,
                            unit: self.unit,
                        },
                        _ => Primitive::Arc {
                            from: self.current,
                            to,
                            offset: read_offset(o, self.unit),
                            clockwise: self.interpolation == Interpolation::Clockwise,
                            multi_quadrant: self.quadrant == Quadrant::Multi,
                            aperture,
                            unit: self.unit,
                        },
                    };
                    out.push(drawn);
                }
                self.current = to;
            },
            GerberCommand::Flash(w) => {
                let at = read_target(w, self.unit, self.current);
                match self.selected_entry() {
                    Some(Defined::Listed(aperture)) => {
                        out.push(Primitive::Flash { at, aperture, unit: self.unit });
                    },
                    Some(Defined::Block(b)) => {
                        if b < self.blocks.len() {
                            proof {
                                lemma_drawn_push(out@, Primitive::BlockPlaced { at });
                            }
                            out.push(Primitive::BlockPlaced { at });
                            place_block(out, &self.blocks[b]);
                            proof {
                                lemma_drawn_push(out@, Primitive::BlockEnd);
                                assert(self.blocks@.map_values(|b: Vec<Primitive<C>>| drawn_of(b@))[b as int]
                                    == drawn_of(self.blocks@[b as int]@));
                            }
                            out.push(Primitive::BlockEnd);
                        }
                    },
                    None => {},
                }
                self.current = at;
            },
            GerberCommand::InterpolationMode(m) => {
                self.interpolation = m;
            },
            GerberCommand::RegionMode(on) => {
                let mut points: Vec<Position<C>> = Vec::new();
                std::mem::swap(&mut points, &mut self.region);
                self.in_region = on;
                if !on && points.len() >= 3 {
                    out.push(Primitive::Fill(points));
                }
            },
            GerberCommand::QuadrantMode(q) => {
                self.quadrant = q;
            },
            _ => {},
        }
        proof {
            assert(self.state() =~= step_plain(old(self).state(), cmd).0);
            assert(drawn_of(out@) =~= out0 + step_plain(old(self).state(), cmd).1);
        }
    }

    /// Follows one command, appending what it draws to `out`.
    fn apply(&mut self, cmd: GerberCommand<C>, out: &mut Vec<Primitive<C>>)
        ensures
            final(self).state() == step(old(self).state(), cmd).0,
            drawn_of(final(out)@) == drawn_of(old(out)@) + step(old(self).state(), cmd).1,
    {
        let ghost st0 = self.state();
        let ghost rec0 = self.recording@;
        match cmd {
            GerberCommand::ApertureBlockOpen(code) => {
                let fresh: Vec<Primitive<C>> = Vec::new();
                assert(drawn_of(fresh@) =~= Seq::<Drawn<C>>::empty());
                self.recording.push((code, fresh, self.current));
                self.current = Position { x: None, y: None };
                proof {
                    assert(self.recording@.map_values(|e: (i32, Vec<Primitive<C>>, Position<C>)| (e.0, drawn_of(e.1@), e.2))
                        =~= st0.recording.push((code, Seq::empty(), st0.current)));
                    assert(self.state() =~= step(st0, cmd).0);
                    assert(drawn_of(out@) =~= drawn_of(old(out)@) + step(st0, cmd).1);
                }
            },
            GerberCommand::ApertureBlockClose => {
                match self.recording.pop() {
                    Some((code, drawn, saved)) => {
                        let index = self.blocks.len();
                        let ghost blocks0 = self.blocks@;
                        self.blocks.push(drawn);
                        assert(self.blocks@.map_values(|b: Vec<Primitive<C>>| drawn_of(b@)) =~= blocks0.map_values(
                            |b: Vec<Primitive<C>>| drawn_of(b@),
                        ).push(drawn_of(drawn@)));
                        self.apertures.push((code, Defined::Block(index)));
                        self.current = saved;
                        proof {
                            assert(self.recording@ =~= rec0.drop_last());
                            assert(self.recording@.map_values(
                                |e: (i32, Vec<Primitive<C>>, Position<C>)| (e.0, drawn_of(e.1@), e.2),
                            ) =~= st0.recording.drop_last());
                        }
                    },
                    None => {},
                }
                proof {
                    assert(self.state() =~= step(st0, cmd).0);
                    assert(drawn_of(out@) =~= drawn_of(old(out)@) + step(st0, cmd).1);
                }
            },
            _ => {
                match self.recording.pop() {
                    Some((code, buffer, saved)) => {
                        let mut buffer = buffer;
                        let ghost mid = self.state();
                        proof {
                            assert(self.recording@ =~= rec0.drop_last());
                            assert(self.recording@.map_values(
                                |e: (i32, Vec<Primitive<C>>, Position<C>)| (e.0, drawn_of(e.1@), e.2),
                            ) =~= st0.recording.drop_last());
                            assert(mid == with_recording(st0, st0.recording.drop_last()));
                            lemma_plain_ignores_recording(st0, st0.recording.drop_last(), cmd);
                        }
                        self.apply_plain(cmd, &mut buffer);
                        self.recording.push((code, buffer, saved));
                        proof {
                            assert(self.recording@.map_values(
                                |e: (i32, Vec<Primitive<C>>, Position<C>)| (e.0, drawn_of(e.1@), e.2),
                            ) =~= step(st0, cmd).0.recording);
                            assert(self.state() =~= step(st0, cmd).0);
                            assert(drawn_of(out@) =~= drawn_of(old(out)@) + step(st0, cmd).1);
                        }
                    },
                    None => {
                        self.apply_plain(cmd, out);
                        proof {
                            assert(self.state() =~= step(st0, cmd).0);
                        }
                    },
                }
            },
        }
    }
}

/// What a command other than those that open and close aperture blocks
/// does is the same whichever blocks are open.
proof fn lemma_plain_ignores_recording<C>(
    st: GerberState<C>,
    recording: Seq<(i32, Seq<Drawn<C>>, Position<C>)>,
    cmd: GerberCommand<C>,
)
    ensures
        step_plain(with_recording(st, recording), cmd).1 == step_plain(st, cmd).1,
        step_plain(with_recording(st, recording), cmd).0 == with_recording(step_plain(st, cmd).0, recording),
{
}

/// A state with other open aperture blocks.
pub open spec fn with_recording<C>(st: GerberState<C>, recording: Seq<(i32, Seq<Drawn<C>>, Position<C>)>) -> GerberState<C> {
    GerberState { recording, ..st }
}

/// A copy of a primitive.
fn copy_primitive<C: Copy>(p: &Primitive<C>) -> (r: Primitive<C>)
    ensures
        r@ == p@,
{
    match p {
        Primitive::Stroke { from, to, aperture, unit } => Primitive::Stroke {
            from: *from,
            to: *to,
            aperture: *aperture,
            unit: *unit,
        },
        Primitive::Arc { from, to, offset, clockwise, multi_quadrant, aperture, unit } => Primitive::Arc {
            from: *from,
            to: *to,
            offset: *offset,
            clockwise: *clockwise,
            multi_quadrant: *multi_quadrant,
            aperture: *aperture,
            unit: *unit,
        },
        Primitive::Flash { at, aperture, unit } => Primitive::Flash { at: *at, aperture: *aperture, unit: *unit },
        Primitive::Fill(points) => {
            let mut copy: Vec<Position<C>> = Vec::new();
            let mut i: usize = 0;
            while i < points.len()
                invariant
                    i <= points@.len(),
                    copy@ == points@.take(i as int),
                decreases points.len() - i,
            {
                copy.push(points[i]);
                i += 1;
                assert(copy@ =~= points@.take(i as int));
            }
            assert(points@.take(points@.len() as int) =~= points@);
            Primitive::Fill(copy)
        },
        Primitive::RepeatStart => Primitive::RepeatStart,
        Primitive::RepeatEnd { repeat_x, repeat_y, step, unit } => Primitive::RepeatEnd {
            repeat_x: *repeat_x,
            repeat_y: *repeat_y,
            step: *step,
            unit: *unit,
        },
        Primitive::MacroDefined(d) => Primitive::MacroDefined(*d),
        Primitive::BlockPlaced { at } => Primitive::BlockPlaced { at: *at },
        Primitive::BlockEnd => Primitive::BlockEnd,
    }
}

/// Appends a copy of an aperture block's primitives to `out`.
fn place_block<C: Copy>(out: &mut Vec<Primitive<C>>, block: &Vec<Primitive<C>>)
    ensures
        drawn_of(final(out)@) == drawn_of(old(out)@) + drawn_of(block@),
{
    let ghost out0 = drawn_of(out@);
    let mut i: usize = 0;
    assert(drawn_of(out@) =~= out0 + drawn_of(block@.take(0)));
    while i < block.len()
        invariant
            i <= block@.len(),
            drawn_of(out@) == out0 + drawn_of(block@.take(i as int)),
        decreases block.len() - i,
    {
        let p = copy_primitive(&block[i]);
        proof {
            lemma_drawn_push(out@, p);
            assert(block@.take(i + 1) =~= block@.take(i as int).push(block@[i as int]));
            lemma_drawn_push(block@.take(i as int), block@[i as int]);
        }
        out.push(p);
        i += 1;
        assert(drawn_of(out@) =~= out0 + drawn_of(block@.take(i as int)));
    }
    assert(block@.take(block@.len() as int) =~= block@);
}

/// Follows a command stream from the start and lists what it draws, in
/// order.
pub fn interpret<C: Copy>(commands: &Vec<GerberCommand<C>>) -> (r: Vec<Primitive<C>>)
    ensures
        drawn_of(r@) == run(commands@, commands@.len() as int).1,
{
    let mut state = Interpreter::new();
    let mut out: Vec<Primitive<C>> = Vec::new();
    let mut i: usize = 0;
    assert(drawn_of(out@) =~= Seq::<Drawn<C>>::empty());
    while i < commands.len()
        invariant
            i <= commands@.len(),
            state.state() == run(commands@, i as int).0,
            drawn_of(out@) == run(commands@, i as int).1,
        decreases commands.len() - i,
    {
        state.apply(commands[i], &mut out);
        i += 1;
    }
    out
}

} // verus!
