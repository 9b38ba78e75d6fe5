//! The per-robot register machine and the population-wide tick engine.
//!
//! Each robot owns a [`Core`]: registers `a`/`b`/`c`, program counter `ip`
//! (all 16-bit signed with wraparound), three mutually exclusive flags
//! `e`/`g`/`l`, and the compiled instruction list. A tick advances every
//! robot by exactly one instruction under a decide/apply protocol:
//! movement and shooting are recorded as pending actions in the decide
//! phase and committed afterwards, so no robot's decision can observe
//! another robot's already-updated position within the same tick.

use vstd::prelude::*;
use vstd::string::StringExecFns;
use crate::lexer::str_eq;
use crate::parser::Instruction;
use crate::parser::InstrView;
use crate::parser::Value;
use crate::parser::ValueView;
use crate::parser::parse;
use crate::parser::spec_parse;
use crate::parser::instrs_view;
use crate::parser::spec_instr_line;

verus! {

/// Display colour of a robot: red, green, blue, alpha.
#[derive(Clone, Copy, Debug, PartialEq, Eq, Structural)]
pub struct Color {
    pub r: u8,
    pub g: u8,
    pub b: u8,
    pub a: u8,
}

/// The register machine owned by one robot: its source text, the compiled
/// instruction list, the registers, the program counter and the flags.
pub struct Core {
    pub source: String,
    pub instructions: Vec<Instruction>,
    // Registers
    pub a: i16,
    pub b: i16,
    pub c: i16,
    pub ip: i16,
    // Flags
    pub e: bool,
    pub g: bool,
    pub l: bool,
}

/// The mathematical image of a core.
#[verifier::ext_equal]
pub struct CoreView {
    pub source: Seq<char>,
    pub instructions: Seq<InstrView>,
    pub a: i16,
    pub b: i16,
    pub c: i16,
    pub ip: i16,
    pub e: bool,
    pub g: bool,
    pub l: bool,
}

impl View for Core {
    type V = CoreView;

    open spec fn view(&self) -> CoreView {
        CoreView {
            source: self.source@,
            instructions: instrs_view(self.instructions@),
            a: self.a,
            b: self.b,
            c: self.c,
            ip: self.ip,
            e: self.e,
            g: self.g,
            l: self.l,
        }
    }
}

/// The state a fresh core starts in: no source, no instructions, every
/// register and flag cleared.
pub open spec fn spec_core_default() -> CoreView {
    CoreView {
        source: Seq::<char>::empty(),
        instructions: Seq::<InstrView>::empty(),
        a: 0,
        b: 0,
        c: 0,
        ip: 0,
        e: false,
        g: false,
        l: false,
    }
}

impl Default for Core {
    fn default() -> (c: Core)
        ensures
            c@ == spec_core_default(),
    {
        let c = Core {
            source: String::new(),
            instructions: Vec::new(),
            a: 0,
            b: 0,
            c: 0,
            ip: 0,
            e: false,
            g: false,
            l: false,
        };
        proof {
            assert(c@ =~~= spec_core_default());
        }
        c
    }
}

impl Core {
    /// Compiles this core's source text, replacing the instruction list
    /// wholesale; registers and flags are untouched. Recompiling is
    /// idempotent.
    pub fn compile(&mut self)
        ensures
            final(self)@ == (CoreView {
                instructions: spec_parse(old(self)@.source),
                ..old(self)@
            }),
    {
        let compiled = parse(&self.source);
        self.instructions = compiled;
    }

    /// The source line of the instruction `ip` points at.
    pub fn current_line(&self) -> (line: usize)
        requires
            0 <= self@.ip < self@.instructions.len(),
        ensures
            line as nat == spec_instr_line(self@.instructions[self@.ip as int]),
    {
        self.instructions[self.ip as usize].source_line()
    }
}

/// One robot: grid position, facing direction, vitals, display metadata
/// and its register machine.
pub struct Robot {
    pub x: i32,
    pub y: i32,
    pub direction: (i32, i32),
    pub max_health: i32,
    pub health: i32,
    pub bullets: i32,
    pub team: i32,
    pub color: Color,
    pub name: String,
    pub core: Core,
    pub gun_loaded: bool,
    /// Area of influence: cells highlighted around the robot for display.
    pub aoi: Vec<(i32, i32)>,
}

/// The mathematical image of a robot.
#[verifier::ext_equal]
pub struct RobotView {
    pub x: i32,
    pub y: i32,
    pub direction: (i32, i32),
    pub max_health: i32,
    pub health: i32,
    pub bullets: i32,
    pub team: i32,
    pub color: Color,
    pub name: Seq<char>,
    pub core: CoreView,
    pub gun_loaded: bool,
    pub aoi: Seq<(i32, i32)>,
}

impl View for Robot {
    type V = RobotView;

    open spec fn view(&self) -> RobotView {
        RobotView {
            x: self.x,
            y: self.y,
            direction: self.direction,
            max_health: self.max_health,
            health: self.health,
            bullets: self.bullets,
            team: self.team,
            color: self.color,
            name: self.name@,
            core: self.core@,
            gun_loaded: self.gun_loaded,
            aoi: self.aoi@,
        }
    }
}

/// The image of the robot population.
pub open spec fn robots_view(rs: Seq<Robot>) -> Seq<RobotView> {
    rs.map_values(|r: Robot| r@)
}

/// The state a fresh robot starts in: the origin, facing up the grid,
/// full health, a hundred bullets, a loaded gun and an empty core.
pub open spec fn spec_robot_default() -> RobotView {
    RobotView {
        x: 0,
        y: 0,
        direction: (0i32, 1i32),
        max_health: 100,
        health: 100,
        bullets: 100,
        team: 1,
        color: Color { r: 230, g: 41, b: 55, a: 255 },
        name: "Unnamed"@,
        core: spec_core_default(),
        gun_loaded: true,
        aoi: Seq::<(i32, i32)>::empty(),
    }
}

impl Default for Robot {
    fn default() -> (r: Robot)
        ensures
            r@ == spec_robot_default(),
    {
        let r = Robot {
            x: 0,
            y: 0,
            direction: (0, 1),
            max_health: 100,
            health: 100,
            bullets: 100,
            team: 1,
            color: Color { r: 230, g: 41, b: 55, a: 255 },
            name: String::from_str("Unnamed"),
            core: Core::default(),
            gun_loaded: true,
            aoi: Vec::new(),
        };
        proof {
            assert(r@ =~~= spec_robot_default());
        }
        r
    }
}

/// The rectangular grid the robots move on; movement is clamped to
/// `[0, width-1] x [0, height-1]`.
#[derive(Clone, Copy, Debug, PartialEq, Eq, Structural)]
pub struct Field {
    pub width: i32,
    pub height: i32,
}

/// The pending action a robot records in the decide phase of a tick,
/// committed population-wide afterwards.
#[derive(Clone, Copy, Debug, PartialEq, Eq, Structural)]
pub enum Action {
    /// Nothing deferred.
    Idle,
    /// Move to this (already clamped) cell.
    Move(i32, i32),
    /// Subtract health from the robot at this index.
    Shoot(usize),
}

/// The value a register name reads as; an unknown name reads as 0.
pub open spec fn spec_reg_read(c: CoreView, name: Seq<char>) -> i16 {
    if name == "a"@ {
        c.a
    } else if name == "b"@ {
        c.b
    } else if name == "c"@ {
        c.c
    } else if name == "ip"@ {
        c.ip
    } else {
        0
    }
}

/// The core after a store to a register name; a store to an unknown name
/// changes nothing.
pub open spec fn spec_reg_write(c: CoreView, name: Seq<char>, val: i16) -> CoreView {
    if name == "a"@ {
        CoreView { a: val, ..c }
    } else if name == "b"@ {
        CoreView { b: val, ..c }
    } else if name == "c"@ {
        CoreView { c: val, ..c }
    } else if name == "ip"@ {
        CoreView { ip: val, ..c }
    } else {
        c
    }
}

/// Operand resolution: an immediate yields its literal, a register yields
/// its current value, an unresolved identifier yields 0.
pub open spec fn spec_resolve_value(r: RobotView, v: ValueView) -> i16 {
    match v {
        ValueView::Immediate(n) => n,
        ValueView::Identifier(_) => 0,
        ValueView::Register(name) => spec_reg_read(r.core, name),
    }
}

/// A store lands only in a register destination; anything else is a
/// no-op.
pub open spec fn spec_store_value(r: RobotView, dest: ValueView, val: i16) -> RobotView {
    match dest {
        ValueView::Register(name) => RobotView { core: spec_reg_write(r.core, name, val), ..r },
        _ => r,
    }
}

/// The flags after an arithmetic or compare result: exactly one of
/// `e`/`g`/`l` holds, for zero, positive and negative.
pub open spec fn spec_set_flags(c: CoreView, val: i16) -> CoreView {
    CoreView { e: val == 0, g: val > 0, l: val < 0, ..c }
}

/// A robot with its flags set from `val`.
pub open spec fn spec_flagged(r: RobotView, val: i16) -> RobotView {
    RobotView { core: spec_set_flags(r.core, val), ..r }
}

impl Robot {
    /// Reads the value an operand stands for against this robot's
    /// registers.
    pub fn resolve_value(&self, val: &Value) -> (r: i16)
        ensures
            r == spec_resolve_value(self@, val@),
    {
        match val {
            Value::Immediate(imm) => *imm,
            Value::Identifier(_) => 0,
            Value::Register(reg) => {
                let name = reg.as_str();
                if str_eq(name, "a") {
                    self.core.a
                } else if str_eq(name, "b") {
                    self.core.b
                } else if str_eq(name, "c") {
                    self.core.c
                } else if str_eq(name, "ip") {
                    self.core.ip
                } else {
                    0
                }
            },
        }
    }

    /// Stores a value into a register destination; storing anywhere else
    /// is a no-op.
    pub fn store_value(&mut self, dest: &Value, src: i16)
        ensures
            final(self)@ == spec_store_value(old(self)@, dest@, src),
    {
        if let Value::Register(reg) = dest {
            let name = reg.as_str();
            if str_eq(name, "a") {
                self.core.a = src;
            } else if str_eq(name, "b") {
                self.core.b = src;
            } else if str_eq(name, "c") {
                self.core.c = src;
            } else if str_eq(name, "ip") {
                self.core.ip = src;
            }
        }
    }

    /// Sets the flags from a signed result: `e` for zero, `g` for
    /// positive, `l` for negative — always exactly one of the three.
    pub fn update_flags(&mut self, val: i16)
        ensures
            final(self)@ == spec_flagged(old(self)@, val),
    {
        if val == 0 {
            self.core.e = true;
            self.core.g = false;
            self.core.l = false;
        } else if val > 0 {
            self.core.e = false;
            self.core.g = true;
            self.core.l = false;
        } else {
            self.core.e = false;
            self.core.g = false;
            self.core.l = true;
        }
    }
}

/// 16-bit signed addition with wraparound.
pub open spec fn wrap_add_i16(a: i16, b: i16) -> i16 {
    let v = a as int + b as int;
    if v > 32767 {
        (v - 65536) as i16
    } else if v < -32768 {
        (v + 65536) as i16
    } else {
        v as i16
    }
}

/// 16-bit signed subtraction with wraparound.
pub open spec fn wrap_sub_i16(a: i16, b: i16) -> i16 {
    let v = a as int - b as int;
    if v > 32767 {
        (v - 65536) as i16
    } else if v < -32768 {
        (v + 65536) as i16
    } else {
        v as i16
    }
}

fn wrap_add16(a: i16, b: i16) -> (r: i16)
    ensures
        r == wrap_add_i16(a, b),
{
    let v: i32 = a as i32 + b as i32;
    if v > 32767 {
        (v - 65536) as i16
    } else if v < -32768 {
        (v + 65536) as i16
    } else {
        v as i16
    }
}

fn wrap_sub16(a: i16, b: i16) -> (r: i16)
    ensures
        r == wrap_sub_i16(a, b),
{
    let v: i32 = a as i32 - b as i32;
    if v > 32767 {
        (v - 65536) as i16
    } else if v < -32768 {
        (v + 65536) as i16
    } else {
        v as i16
    }
}

/// One of the four axis-unit facing directions.
pub open spec fn dir_cardinal(d: (i32, i32)) -> bool {
    ||| (d.0 == 0 && d.1 == 1)
    ||| (d.0 == 1 && d.1 == 0)
    ||| (d.0 == 0 && d.1 == -1)
    ||| (d.0 == -1 && d.1 == 0)
}

/// A field the engine can clamp movement into.
pub open spec fn field_wf(f: Field) -> bool {
    f.width >= 1 && f.height >= 1
}

/// The engine's invariant on one robot: the facing direction is one of
/// the four cardinal vectors and the position lies on the field.
pub open spec fn robot_wf(r: RobotView, f: Field) -> bool {
    &&& dir_cardinal(r.direction)
    &&& 0 <= r.x < f.width
    &&& 0 <= r.y < f.height
}

/// The engine's invariant on the whole population.
pub open spec fn robots_wf(rs: Seq<RobotView>, f: Field) -> bool {
    forall|k: int| 0 <= k < rs.len() ==> robot_wf(#[trigger] rs[k], f)
}

/// The direction-projected distance the targeting scan minimises.
pub open spec fn spec_sht_dist(shooter: RobotView, other: RobotView) -> int {
    let dx = shooter.direction.0 as int;
    let dy = shooter.direction.1 as int;
    let x = shooter.x as int * dx;
    let y = shooter.y as int * dy;
    let xe = other.x as int * dx;
    let ye = other.y as int * dy;
    vstd::math::abs(vstd::math::abs(x) - vstd::math::abs(xe)) + vstd::math::abs(
        vstd::math::abs(y) - vstd::math::abs(ye),
    ) as int
}

/// Whether robot `j` lies strictly ahead of shooter `i` along the
/// shooter's facing axis.
pub open spec fn spec_is_candidate(rs: Seq<RobotView>, i: int, j: int) -> bool {
    let s = rs[i];
    let o = rs[j];
    let dx = s.direction.0 as int;
    let dy = s.direction.1 as int;
    if dx == 0 {
        s.x == o.x && s.y as int * dy < o.y as int * dy
    } else {
        s.x as int * dx < o.x as int * dx && s.y == o.y
    }
}

/// The targeting scan from index `j` on, carrying the best distance and
/// pick so far. A later candidate replaces the pick only with a strictly
/// smaller distance, so ties keep the lowest-index candidate.
pub open spec fn spec_scan_target(
    rs: Seq<RobotView>,
    i: int,
    j: int,
    best: int,
    tgt: Option<int>,
) -> Option<int>
    decreases rs.len() - j
    when 0 <= j
{
    if j >= rs.len() {
        tgt
    } else if j != i && spec_is_candidate(rs, i, j) && spec_sht_dist(rs[i], rs[j]) < best {
        spec_scan_target(rs, i, j + 1, spec_sht_dist(rs[i], rs[j]), Some(j))
    } else {
        spec_scan_target(rs, i, j + 1, best, tgt)
    }
}

/// The robot a shot from robot `i` hits, if any: the candidate ahead of
/// the shooter minimising the projected distance, lowest index first,
/// judged against pre-tick positions.
pub open spec fn spec_target(rs: Seq<RobotView>, i: int) -> Option<int> {
    spec_scan_target(rs, i, 0, i32::MAX as int, None::<int>)
}

/// The clamp of a coordinate into `[0, hi-1]`.
pub open spec fn spec_clamp(v: int, hi: int) -> int {
    if v < 0 {
        0
    } else if v > hi - 1 {
        hi - 1
    } else {
        v
    }
}

/// The state transition of one instruction against robot `i` of `rs`,
/// and the action it defers. Register, flag, program-counter and gun
/// mutations are immediate; `Fwd` and `Sht` only record an action.
/// An instruction with no defined execution case (`See`, or a stray
/// label) is a no-op.
pub open spec fn spec_exec_instr(rs: Seq<RobotView>, i: int, field: Field, ins: InstrView) -> (
    RobotView,
    Action,
) {
    let r = rs[i];
    match ins {
        InstrView::Mov(_, dest, src) => (
            spec_store_value(r, dest, spec_resolve_value(r, src)),
            Action::Idle,
        ),
        InstrView::Add(_, dest, src) => {
            let v = wrap_add_i16(spec_resolve_value(r, dest), spec_resolve_value(r, src));
            (spec_flagged(spec_store_value(r, dest, v), v), Action::Idle)
        },
        InstrView::Sub(_, dest, src) => {
            let v = wrap_sub_i16(spec_resolve_value(r, dest), spec_resolve_value(r, src));
            (spec_flagged(spec_store_value(r, dest, v), v), Action::Idle)
        },
        InstrView::Cmp(_, a, b) => {
            let v = wrap_sub_i16(spec_resolve_value(r, a), spec_resolve_value(r, b));
            (spec_flagged(r, v), Action::Idle)
        },
        InstrView::And(_, dest, src) => {
            let v = spec_resolve_value(r, dest) & spec_resolve_value(r, src);
            (spec_flagged(spec_store_value(r, dest, v), v), Action::Idle)
        },
        InstrView::Or(_, dest, src) => {
            let v = spec_resolve_value(r, dest) | spec_resolve_value(r, src);
            (spec_flagged(spec_store_value(r, dest, v), v), Action::Idle)
        },
        InstrView::Xor(_, dest, src) => {
            let v = spec_resolve_value(r, dest) ^ spec_resolve_value(r, src);
            (spec_flagged(spec_store_value(r, dest, v), v), Action::Idle)
        },
        InstrView::Not(_, dest) => {
            let v = !spec_resolve_value(r, dest);
            (spec_flagged(spec_store_value(r, dest, v), v), Action::Idle)
        },
        InstrView::Jmp(_, dest) => (
            RobotView {
                core: CoreView { ip: wrap_sub_i16(spec_resolve_value(r, dest), 1), ..r.core },
                ..r
            },
            Action::Idle,
        ),
        InstrView::Je(_, dest) => {
            if r.core.e {
                (
                    RobotView {
                        core: CoreView {
                            ip: wrap_sub_i16(spec_resolve_value(r, dest), 1),
                            ..r.core
                        },
                        ..r
                    },
                    Action::Idle,
                )
            } else {
                (r, Action::Idle)
            }
        },
        InstrView::Jg(_, dest) => {
            if r.core.g {
                (
                    RobotView {
                        core: CoreView {
                            ip: wrap_sub_i16(spec_resolve_value(r, dest), 1),
                            ..r.core
                        },
                        ..r
                    },
                    Action::Idle,
                )
            } else {
                (r, Action::Idle)
            }
        },
        InstrView::Jl(_, dest) => {
            if r.core.l {
                (
                    RobotView {
                        core: CoreView {
                            ip: wrap_sub_i16(spec_resolve_value(r, dest), 1),
                            ..r.core
                        },
                        ..r
                    },
                    Action::Idle,
                )
            } else {
                (r, Action::Idle)
            }
        },
        InstrView::Fwd(_) => (
            r,
            Action::Move(
                spec_clamp(r.x + r.direction.0, field.width as int) as i32,
                spec_clamp(r.y + r.direction.1, field.height as int) as i32,
            ),
        ),
        InstrView::Rol(_) => {
            let d = r.direction;
            let nd: (i32, i32) = if d.0 == 0 && d.1 == 1 {
                (1i32, 0i32)
            } else if d.0 == 1 && d.1 == 0 {
                (0i32, -1i32)
            } else if d.0 == 0 && d.1 == -1 {
                (-1i32, 0i32)
            } else if d.0 == -1 && d.1 == 0 {
                (0i32, 1i32)
            } else {
                d
            };
            (RobotView { direction: nd, ..r }, Action::Idle)
        },
        InstrView::Ror(_) => {
            let d = r.direction;
            let nd: (i32, i32) = if d.0 == 0 && d.1 == 1 {
                (-1i32, 0i32)
            } else if d.0 == -1 && d.1 == 0 {
                (0i32, -1i32)
            } else if d.0 == 0 && d.1 == -1 {
                (1i32, 0i32)
            } else if d.0 == 1 && d.1 == 0 {
                (0i32, 1i32)
            } else {
                d
            };
            (RobotView { direction: nd, ..r }, Action::Idle)
        },
        InstrView::Sht(_) => {
            if r.bullets > 0 && r.gun_loaded {
                let r1 = RobotView { bullets: (r.bullets - 1) as i32, gun_loaded: false, ..r };
                match spec_target(rs, i) {
                    Some(t) => (r1, Action::Shoot(t as usize)),
                    None => (r1, Action::Idle),
                }
            } else {
                (r, Action::Idle)
            }
        },
        InstrView::Rld(_) => (RobotView { gun_loaded: true, ..r }, Action::Idle),
        _ => (r, Action::Idle),
    }
}

/// How a coordinate projects along a cardinal direction component.
proof fn lemma_dir_proj(p: int, d: int)
    requires
        0 <= p,
        d == 0 || d == 1 || d == -1,
    ensures
        d == 0 ==> p * d == 0,
        d == 1 ==> p * d == p,
        d == -1 ==> p * d == -p,
{
    assert(p * 0 == 0) by (nonlinear_arith);
    assert(p * 1 == p) by (nonlinear_arith);
    assert(p * -1 == -p) by (nonlinear_arith);
}

/// An index option seen as a mathematical one.
pub open spec fn opt_int(t: Option<usize>) -> Option<int> {
    match t {
        Some(u) => Some(u as int),
        None => None,
    }
}

fn abs32(v: i32) -> (r: i32)
    requires
        v > i32::MIN,
    ensures
        r as int == vstd::math::abs(v as int),
{
    if v < 0 {
        -v
    } else {
        v
    }
}

/// The targeting scan of a shot from robot `i`: a linear pass over the
/// population in index order, keeping the candidate ahead of the shooter
/// with the strictly smallest projected distance.
fn find_target(robots: &Vec<Robot>, i: usize, field: &Field) -> (t: Option<usize>)
    requires
        i < robots@.len(),
        field_wf(*field),
        robots_wf(robots_view(robots@), *field),
    ensures
        opt_int(t) == spec_target(robots_view(robots@), i as int),
        t matches Some(u) ==> u < robots@.len(),
{
    let ghost rv = robots_view(robots@);
    let n: usize = robots.len();
    let dx: i32 = robots[i].direction.0;
    let dy: i32 = robots[i].direction.1;
    proof {
        assert(robot_wf(rv[i as int], *field));
        lemma_dir_proj(rv[i as int].x as int, dx as int);
        lemma_dir_proj(rv[i as int].y as int, dy as int);
    }
    let x: i32 = robots[i].x * dx;
    let y: i32 = robots[i].y * dy;
    let mut min_dist: i32 = i32::MAX;
    let mut target: Option<usize> = None;
    let mut j: usize = 0;
    while j < n
        invariant
            0 <= j <= n,
            i < n,
            n == rv.len(),
            rv == robots_view(robots@),
            field_wf(*field),
            robots_wf(rv, *field),
            dx == rv[i as int].direction.0,
            dy == rv[i as int].direction.1,
            x as int == rv[i as int].x as int * dx as int,
            y as int == rv[i as int].y as int * dy as int,
            spec_scan_target(rv, i as int, j as int, min_dist as int, opt_int(target))
                == spec_target(rv, i as int),
            target matches Some(u) ==> u < n,
        decreases n - j,
    {
        if j != i {
            proof {
                assert(robot_wf(rv[i as int], *field));
                assert(robot_wf(rv[j as int], *field));
                lemma_dir_proj(rv[i as int].x as int, dx as int);
                lemma_dir_proj(rv[i as int].y as int, dy as int);
                lemma_dir_proj(rv[j as int].x as int, dx as int);
                lemma_dir_proj(rv[j as int].y as int, dy as int);
            }
            let xe: i32 = robots[j].x * dx;
            let ye: i32 = robots[j].y * dy;
            let dist: i32 = abs32(abs32(x) - abs32(xe)) + abs32(abs32(y) - abs32(ye));
            proof {
                assert(dist as int == spec_sht_dist(rv[i as int], rv[j as int]));
            }
            let is_cand: bool = if dx == 0 {
                robots[i].x == robots[j].x && y < ye
            } else {
                x < xe && robots[i].y == robots[j].y
            };
            proof {
                assert(is_cand == spec_is_candidate(rv, i as int, j as int));
            }
            if is_cand && dist < min_dist {
                min_dist = dist;
                target = Some(j);
            }
        }
        j = j + 1;
    }
    target
}

/// The instruction index the next fetch uses: the program counter where
/// it points into the program, and 0 where it ran off the end — the
/// program loops instead of halting.
pub open spec fn spec_fetch_index(c: CoreView) -> int {
    if 0 <= c.ip && (c.ip as int) < c.instructions.len() {
        c.ip as int
    } else {
        0
    }
}

/// What robot `i` does in the decide phase of a tick: nothing on an
/// empty program; otherwise the program counter is wrapped back to 0 if
/// it ran off the end, the instruction it points at executes, and the
/// counter advances by one (with 16-bit wraparound).
pub open spec fn spec_decide(rs: Seq<RobotView>, i: int, field: Field) -> (RobotView, Action) {
    let r = rs[i];
    if r.core.instructions.len() == 0 {
        (r, Action::Idle)
    } else {
        let ip0: int = spec_fetch_index(r.core);
        let r0 = RobotView { core: CoreView { ip: ip0 as i16, ..r.core }, ..r };
        let rs1 = rs.update(i, r0);
        let step = spec_exec_instr(rs1, i, field, r.core.instructions[ip0]);
        (
            RobotView {
                core: CoreView { ip: wrap_add_i16(step.0.core.ip, 1), ..step.0.core },
                ..step.0
            },
            step.1,
        )
    }
}

/// Executes one already-fetched instruction against robot `i`, mutating
/// only that robot and returning the action it defers.
fn exec_instr(i: usize, robots: &mut Vec<Robot>, field: &Field, inst: &Instruction) -> (action:
    Action)
    requires
        i < old(robots)@.len(),
        field_wf(*field),
        robots_wf(robots_view(old(robots)@), *field),
    ensures
        final(robots)@.len() == old(robots)@.len(),
        forall|k: int|
            0 <= k < final(robots)@.len() && k != i ==> final(robots)@[k] == old(robots)@[k],
        final(robots)@[i as int]@ == spec_exec_instr(
            robots_view(old(robots)@),
            i as int,
            *field,
            inst@,
        ).0,
        action == spec_exec_instr(robots_view(old(robots)@), i as int, *field, inst@).1,
{
    let ghost rv = robots_view(old(robots)@);
    match inst {
        Instruction::Nop(_) => Action::Idle,
        Instruction::Mov(_, dest, src) => {
            let v = robots[i].resolve_value(src);
            robots[i].store_value(dest, v);
            Action::Idle
        },
        Instruction::Add(_, dest, src) => {
            let a = robots[i].resolve_value(dest);
            let b = robots[i].resolve_value(src);
            let res = wrap_add16(a, b);
            robots[i].store_value(dest, res);
            robots[i].update_flags(res);
            Action::Idle
        },
        Instruction::Sub(_, dest, src) => {
            let a = robots[i].resolve_value(dest);
            let b = robots[i].resolve_value(src);
            let res = wrap_sub16(a, b);
            robots[i].store_value(dest, res);
            robots[i].update_flags(res);
            Action::Idle
        },
        Instruction::Cmp(_, a, b) => {
            let va = robots[i].resolve_value(a);
            let vb = robots[i].resolve_value(b);
            let res = wrap_sub16(va, vb);
            robots[i].update_flags(res);
            Action::Idle
        },
        Instruction::And(_, dest, src) => {
            let a = robots[i].resolve_value(dest);
            let b = robots[i].resolve_value(src);
            let res = a & b;
            robots[i].store_value(dest, res);
            robots[i].update_flags(res);
            Action::Idle
        },
        Instruction::Or(_, dest, src) => {
            let a = robots[i].resolve_value(dest);
            let b = robots[i].resolve_value(src);
            let res = a | b;
            robots[i].store_value(dest, res);
            robots[i].update_flags(res);
            Action::Idle
        },
        Instruction::Xor(_, dest, src) => {
            let a = robots[i].resolve_value(dest);
            let b = robots[i].resolve_value(src);
            let res = a ^ b;
            robots[i].store_value(dest, res);
            robots[i].update_flags(res);
            Action::Idle
        },
        Instruction::Not(_, dest) => {
            let a = robots[i].resolve_value(dest);
            let res = !a;
            robots[i].store_value(dest, res);
            robots[i].update_flags(res);
            Action::Idle
        },
        Instruction::Jmp(_, dest) => {
            let d = robots[i].resolve_value(dest);
            robots[i].core.ip = wrap_sub16(d, 1);
            Action::Idle
        },
        Instruction::Je(_, dest) => {
            if robots[i].core.e {
                let d = robots[i].resolve_value(dest);
                robots[i].core.ip = wrap_sub16(d, 1);
            }
            Action::Idle
        },
        Instruction::Jg(_, dest) => {
            if robots[i].core.g {
                let d = robots[i].resolve_value(dest);
                robots[i].core.ip = wrap_sub16(d, 1);
            }
            Action::Idle
        },
        Instruction::Jl(_, dest) => {
            if robots[i].core.l {
                let d = robots[i].resolve_value(dest);
                robots[i].core.ip = wrap_sub16(d, 1);
            }
            Action::Idle
        },
        Instruction::Fwd(_) => {
            proof {
                assert(robot_wf(rv[i as int], *field));
            }
            let nx0: i32 = robots[i].x + robots[i].direction.0;
            let ny0: i32 = robots[i].y + robots[i].direction.1;
            let nx: i32 = if nx0 < 0 {
                0
            } else if nx0 > field.width - 1 {
                field.width - 1
            } else {
                nx0
            };
            let ny: i32 = if ny0 < 0 {
                0
            } else if ny0 > field.height - 1 {
                field.height - 1
            } else {
                ny0
            };
            Action::Move(nx, ny)
        },
        Instruction::Rol(_) => {
            let d = robots[i].direction;
            if d.0 == 0 && d.1 == 1 {
                robots[i].direction = (1, 0);
            } else if d.0 == 1 && d.1 == 0 {
                robots[i].direction = (0, -1);
            } else if d.0 == 0 && d.1 == -1 {
                robots[i].direction = (-1, 0);
            } else if d.0 == -1 && d.1 == 0 {
                robots[i].direction = (0, 1);
            }
            Action::Idle
        },
        Instruction::Ror(_) => {
            let d = robots[i].direction;
            if d.0 == 0 && d.1 == 1 {
                robots[i].direction = (-1, 0);
            } else if d.0 == -1 && d.1 == 0 {
                robots[i].direction = (0, -1);
            } else if d.0 == 0 && d.1 == -1 {
                robots[i].direction = (1, 0);
            } else if d.0 == 1 && d.1 == 0 {
                robots[i].direction = (0, 1);
            }
            Action::Idle
        },
        Instruction::Sht(_) => {
            if robots[i].bullets > 0 && robots[i].gun_loaded {
                let tgt = find_target(robots, i, field);
                robots[i].bullets = robots[i].bullets - 1;
                robots[i].gun_loaded = false;
                match tgt {
                    Some(t) => Action::Shoot(t),
                    None => Action::Idle,
                }
            } else {
                Action::Idle
            }
        },
        Instruction::Rld(_) => {
            robots[i].gun_loaded = true;
            Action::Idle
        },
        _ => {
            // An instruction with no defined execution case is a no-op.
            Action::Idle
        },
    }
}

/// Advances robot `i` by exactly one instruction: the decide phase of a
/// tick for that robot. Register, flag, program-counter and gun state
/// change in place; movement and shooting are only recorded in the
/// returned action. An empty program does nothing; a program counter
/// that ran off the end wraps back to instruction 0 instead of halting.
pub fn step_robot(i: usize, robots: &mut Vec<Robot>, field: &Field) -> (action: Action)
    requires
        i < old(robots)@.len(),
        field_wf(*field),
        robots_wf(robots_view(old(robots)@), *field),
    ensures
        final(robots)@.len() == old(robots)@.len(),
        forall|k: int|
            0 <= k < final(robots)@.len() && k != i ==> final(robots)@[k] == old(robots)@[k],
        final(robots)@[i as int]@ == spec_decide(robots_view(old(robots)@), i as int, *field).0,
        action == spec_decide(robots_view(old(robots)@), i as int, *field).1,
{
    let ghost rv = robots_view(old(robots)@);
    let ghost sd = spec_decide(rv, i as int, *field);
    let ilen: usize = robots[i].core.instructions.len();
    if ilen == 0 {
        return Action::Idle;
    }
    let ip_raw: i16 = robots[i].core.ip;
    let ip0: usize = if ip_raw >= 0 && (ip_raw as usize) < ilen {
        ip_raw as usize
    } else {
        0
    };
    robots[i].core.ip = ip0 as i16;
    let ghost rs1 = robots_view(robots@);
    proof {
        let r = rv[i as int];
        let ip0s: int = if 0 <= r.core.ip && (r.core.ip as int) < r.core.instructions.len() {
            r.core.ip as int
        } else {
            0
        };
        assert(ip0 as int == ip0s);
        let r0 = RobotView { core: CoreView { ip: ip0s as i16, ..r.core }, ..r };
        assert(robots@[i as int]@ =~~= r0);
        assert(rs1 =~= rv.update(i as int, r0));
        assert(robots_wf(rs1, *field));
    }
    let inst = robots[i].core.instructions[ip0].clone();
    proof {
        assert(inst@ == rv[i as int].core.instructions[ip0 as int]);
    }
    let action = exec_instr(i, robots, field, &inst);
    let ip1: i16 = robots[i].core.ip;
    robots[i].core.ip = wrap_add16(ip1, 1);
    proof {
        assert(robots@[i as int]@ =~~= sd.0);
        assert(forall|k: int|
            0 <= k < robots@.len() && k != i ==> robots@[k] == old(robots)@[k]);
    }
    action
}

/// Every robot's decide-phase result against the same pre-tick
/// population.
pub open spec fn spec_decided(rs: Seq<RobotView>, field: Field) -> Seq<RobotView> {
    Seq::new(rs.len(), |k: int| spec_decide(rs, k, field).0)
}

/// Every robot's deferred action against the same pre-tick population.
pub open spec fn spec_actions(rs: Seq<RobotView>, field: Field) -> Seq<Action> {
    Seq::new(rs.len(), |k: int| spec_decide(rs, k, field).1)
}

/// The population with every pending move committed. No move reads
/// another robot's position, so the order is immaterial.
pub open spec fn spec_apply_moves(decided: Seq<RobotView>, actions: Seq<Action>) -> Seq<
    RobotView,
> {
    Seq::new(
        decided.len(),
        |k: int|
            match actions[k] {
                Action::Move(nx, ny) => RobotView { x: nx, y: ny, ..decided[k] },
                _ => decided[k],
            },
    )
}

/// A robot's health after one hit: ten points down, held at the
/// representable floor.
pub open spec fn spec_hit(h: i32) -> i32 {
    if h - 10 < i32::MIN {
        i32::MIN
    } else {
        (h - 10) as i32
    }
}

/// The population after the pending shots from index `j` on are
/// committed: each shot subtracts ten health from its recorded target.
pub open spec fn spec_apply_shots(rs: Seq<RobotView>, actions: Seq<Action>, j: int) -> Seq<
    RobotView,
>
    decreases actions.len() - j
    when 0 <= j
{
    if j >= actions.len() {
        rs
    } else {
        let rs2 = match actions[j] {
            Action::Shoot(t) => if (t as int) < rs.len() {
                rs.update(
                    t as int,
                    RobotView { health: spec_hit(rs[t as int].health), ..rs[t as int] },
                )
            } else {
                rs
            },
            _ => rs,
        };
        spec_apply_shots(rs2, actions, j + 1)
    }
}

/// The robots that outlive the tick: exactly those with health still
/// above zero, in order.
pub open spec fn spec_survivors(rs: Seq<RobotView>) -> Seq<RobotView> {
    rs.filter(|r: RobotView| r.health > 0)
}

/// One tick of the whole population: every robot decides against the
/// same pre-tick state, then all moves commit, then all shots commit,
/// then the dead are removed. A robot whose health drops to zero this
/// tick still took full part in targeting and movement.
pub open spec fn spec_tick(rs: Seq<RobotView>, field: Field) -> Seq<RobotView> {
    let decided = spec_decided(rs, field);
    let actions = spec_actions(rs, field);
    spec_survivors(spec_apply_shots(spec_apply_moves(decided, actions), actions, 0))
}

proof fn lemma_scan_congruence(
    rs1: Seq<RobotView>,
    rs2: Seq<RobotView>,
    i: int,
    j: int,
    best: int,
    tgt: Option<int>,
)
    requires
        rs1.len() == rs2.len(),
        0 <= i < rs1.len(),
        0 <= j,
        rs1[i].direction == rs2[i].direction,
        forall|k: int|
            0 <= k < rs1.len() ==> ((#[trigger] rs1[k]).x == rs2[k].x && rs1[k].y == rs2[k].y),
    ensures
        spec_scan_target(rs1, i, j, best, tgt) == spec_scan_target(rs2, i, j, best, tgt),
    decreases rs1.len() - j,
{
    if j < rs1.len() {
        assert(rs1[j].x == rs2[j].x && rs1[j].y == rs2[j].y);
        assert(spec_is_candidate(rs1, i, j) == spec_is_candidate(rs2, i, j));
        assert(spec_sht_dist(rs1[i], rs1[j]) == spec_sht_dist(rs2[i], rs2[j]));
        if j != i && spec_is_candidate(rs1, i, j) && spec_sht_dist(rs1[i], rs1[j]) < best {
            lemma_scan_congruence(rs1, rs2, i, j + 1, spec_sht_dist(rs1[i], rs1[j]), Some(j));
        } else {
            lemma_scan_congruence(rs1, rs2, i, j + 1, best, tgt);
        }
    }
}

/// The decide phase of robot `i` reads, of the other robots, only their
/// pre-tick positions: against two populations that agree on robot `i`
/// and on everyone's position, it decides the same.
#[verifier::rlimit(100)]
pub proof fn lemma_decide_congruence(
    rs1: Seq<RobotView>,
    rs2: Seq<RobotView>,
    i: int,
    field: Field,
)
    requires
        rs1.len() == rs2.len(),
        0 <= i < rs1.len(),
        rs1[i] == rs2[i],
        forall|k: int|
            0 <= k < rs1.len() ==> ((#[trigger] rs1[k]).x == rs2[k].x && rs1[k].y == rs2[k].y),
    ensures
        spec_decide(rs1, i, field) == spec_decide(rs2, i, field),
{
    let r = rs1[i];
    if r.core.instructions.len() != 0 {
        let ip0: int = if 0 <= r.core.ip && (r.core.ip as int) < r.core.instructions.len() {
            r.core.ip as int
        } else {
            0
        };
        let r0 = RobotView { core: CoreView { ip: ip0 as i16, ..r.core }, ..r };
        let rs1u = rs1.update(i, r0);
        let rs2u = rs2.update(i, r0);
        let ins = r.core.instructions[ip0];
        if ins is Sht {
            assert forall|k: int|
                0 <= k < rs1u.len() implies ((#[trigger] rs1u[k]).x == rs2u[k].x && rs1u[k].y
                    == rs2u[k].y) by {
                if k != i {
                    assert(rs1[k].x == rs2[k].x && rs1[k].y == rs2[k].y);
                }
            }
            lemma_scan_congruence(rs1u, rs2u, i, 0, i32::MAX as int, None::<int>);
        }
        assert(spec_exec_instr(rs1u, i, field, ins) == spec_exec_instr(rs2u, i, field, ins));
    }
}

/// What the decide phase can never touch: position, health and the
/// display surface of a robot; and it keeps a cardinal facing cardinal.
pub proof fn lemma_decide_frame(rs: Seq<RobotView>, i: int, field: Field)
    requires
        0 <= i < rs.len(),
    ensures
        spec_decide(rs, i, field).0.x == rs[i].x,
        spec_decide(rs, i, field).0.y == rs[i].y,
        spec_decide(rs, i, field).0.health == rs[i].health,
        spec_decide(rs, i, field).0.max_health == rs[i].max_health,
        spec_decide(rs, i, field).0.team == rs[i].team,
        spec_decide(rs, i, field).0.color == rs[i].color,
        spec_decide(rs, i, field).0.name == rs[i].name,
        spec_decide(rs, i, field).0.aoi == rs[i].aoi,
        dir_cardinal(rs[i].direction) ==> dir_cardinal(spec_decide(rs, i, field).0.direction),
{
}

/// The bounds the engine guarantees of every deferred action: a pending
/// move lands on the field, a pending shot names a robot of the
/// population.
pub proof fn lemma_action_bounds(rs: Seq<RobotView>, i: int, field: Field)
    requires
        0 <= i < rs.len(),
        field_wf(field),
    ensures
        spec_decide(rs, i, field).1 matches Action::Move(x, y) ==> 0 <= x < field.width && 0
            <= y < field.height,
        spec_decide(rs, i, field).1 matches Action::Shoot(t) ==> (t as int) < rs.len(),
{
    let r = rs[i];
    if r.core.instructions.len() != 0 {
        let ip0: int = if 0 <= r.core.ip && (r.core.ip as int) < r.core.instructions.len() {
            r.core.ip as int
        } else {
            0
        };
        let r0 = RobotView { core: CoreView { ip: ip0 as i16, ..r.core }, ..r };
        let rsu = rs.update(i, r0);
        let ins = r.core.instructions[ip0];
        if ins is Sht {
            lemma_scan_range(rsu, i, 0, i32::MAX as int, None::<int>);
        }
    }
}

proof fn lemma_scan_range(rs: Seq<RobotView>, i: int, j: int, best: int, tgt: Option<int>)
    requires
        0 <= j,
        tgt matches Some(u) ==> 0 <= u < rs.len(),
    ensures
        spec_scan_target(rs, i, j, best, tgt) matches Some(u) ==> 0 <= u < rs.len(),
    decreases rs.len() - j,
{
    if j < rs.len() {
        if j != i && spec_is_candidate(rs, i, j) && spec_sht_dist(rs[i], rs[j]) < best {
            lemma_scan_range(rs, i, j + 1, spec_sht_dist(rs[i], rs[j]), Some(j));
        } else {
            lemma_scan_range(rs, i, j + 1, best, tgt);
        }
    }
}

proof fn lemma_apply_shots_frame(rs: Seq<RobotView>, actions: Seq<Action>, j: int)
    requires
        0 <= j,
    ensures
        spec_apply_shots(rs, actions, j).len() == rs.len(),
        forall|k: int|
            0 <= k < rs.len() ==> {
                let out = #[trigger] spec_apply_shots(rs, actions, j)[k];
                out.x == rs[k].x && out.y == rs[k].y && out.direction == rs[k].direction
            },
    decreases actions.len() - j,
{
    if j < actions.len() {
        let rs2 = match actions[j] {
            Action::Shoot(t) => if (t as int) < rs.len() {
                rs.update(
                    t as int,
                    RobotView { health: spec_hit(rs[t as int].health), ..rs[t as int] },
                )
            } else {
                rs
            },
            _ => rs,
        };
        lemma_apply_shots_frame(rs2, actions, j + 1);
    }
}

proof fn lemma_survivors_wf(rs: Seq<RobotView>, field: Field)
    requires
        robots_wf(rs, field),
    ensures
        robots_wf(spec_survivors(rs), field),
    decreases rs.len(),
{
    reveal(Seq::filter);
    if rs.len() > 0 {
        assert(robots_wf(rs.drop_last(), field));
        lemma_survivors_wf(rs.drop_last(), field);
    }
}

/// Advances the whole population by one tick: every living robot
/// executes exactly one instruction against the pre-tick state, then all
/// moves commit, then all shots commit, and finally every robot whose
/// health dropped to zero or below is removed.
#[verifier::rlimit(60)]
pub fn step_game(robots: &mut Vec<Robot>, field: &Field)
    requires
        field_wf(*field),
        robots_wf(robots_view(old(robots)@), *field),
    ensures
        robots_view(final(robots)@) == spec_tick(robots_view(old(robots)@), *field),
        robots_wf(robots_view(final(robots)@), *field),
{
    let ghost rv0 = robots_view(robots@);
    let ghost orig = robots@;
    let n: usize = robots.len();
    let mut actions: Vec<Action> = Vec::new();

    // Phase 1: decide. Each robot executes one instruction; only its own
    // registers, flags, direction and gun state change, so the positions
    // every later robot targets against are still the pre-tick ones.
    let mut i: usize = 0;
    while i < n
        invariant
            0 <= i <= n,
            n == robots@.len(),
            n == rv0.len(),
            rv0 == robots_view(orig),
            field_wf(*field),
            robots_wf(rv0, *field),
            actions@.len() == i,
            forall|k: int| i <= k < n ==> robots@[k] == orig[k],
            forall|k: int|
                0 <= k < i ==> (#[trigger] robots@[k])@ == spec_decide(rv0, k, *field).0,
            forall|k: int|
                0 <= k < i ==> #[trigger] actions@[k] == spec_decide(rv0, k, *field).1,
            forall|k: int|
                0 <= k < n ==> ((#[trigger] robots@[k])@.x == rv0[k].x && robots@[k]@.y
                    == rv0[k].y),
            robots_wf(robots_view(robots@), *field),
        decreases n - i,
    {
        let ghost rs_cur = robots_view(robots@);
        let ghost rs_cur_snap = robots@;
        proof {
            assert(rs_cur[i as int] == rv0[i as int]);
            assert forall|k: int|
                0 <= k < rs_cur.len() implies ((#[trigger] rs_cur[k]).x == rv0[k].x
                    && rs_cur[k].y == rv0[k].y) by {
                assert(rs_cur[k] == robots@[k]@);
            }
            lemma_decide_congruence(rs_cur, rv0, i as int, *field);
        }
        let a = step_robot(i, robots, field);
        let ghost acts_snap = actions@;
        actions.push(a);
        i = i + 1;
        proof {
            lemma_decide_frame(rv0, i - 1, *field);
            assert(robots@[i - 1]@ == spec_decide(rv0, i - 1, *field).0);
            assert(robot_wf(rv0[i - 1], *field));
            assert(robot_wf(robots@[i - 1]@, *field));
            assert forall|k: int|
                0 <= k < i implies (#[trigger] robots@[k])@ == spec_decide(rv0, k, *field).0
                by {
                if k < i - 1 {
                    assert(robots@[k] == rs_cur_snap[k]);
                    assert(rs_cur_snap[k]@ == spec_decide(rv0, k, *field).0);
                }
            }
            assert forall|k: int|
                0 <= k < i implies #[trigger] actions@[k] == spec_decide(rv0, k, *field).1 by {
                if k < i - 1 {
                    assert(actions@[k] == acts_snap[k]);
                    assert(acts_snap[k] == spec_decide(rv0, k, *field).1);
                } else {
                    assert(actions@[k] == a);
                    assert(a == spec_decide(rs_cur, k, *field).1);
                    assert(spec_decide(rs_cur, k, *field) == spec_decide(rv0, k, *field));
                }
            }
            assert forall|k: int|
                0 <= k < n implies ((#[trigger] robots@[k])@.x == rv0[k].x && robots@[k]@.y
                    == rv0[k].y) by {
                if k != i - 1 {
                    assert(robots@[k] == rs_cur_snap[k]);
                }
            }
            assert forall|k: int|
                0 <= k < n implies robot_wf(#[trigger] robots_view(robots@)[k], *field) by {
                assert(robots_view(robots@)[k] == robots@[k]@);
                if k != i - 1 {
                    assert(robots@[k] == rs_cur_snap[k]);
                    assert(rs_cur[k] == rs_cur_snap[k]@);
                    assert(robot_wf(rs_cur[k], *field));
                }
            }
        }
    }
    let ghost decided = spec_decided(rv0, *field);
    let ghost acts = spec_actions(rv0, *field);
    proof {
        assert(robots_view(robots@) =~= decided);
        assert forall|k: int| 0 <= k < n implies #[trigger] actions@[k] == acts[k] by {
            assert(actions@[k] == spec_decide(rv0, k, *field).1);
        }
        assert(actions@ =~= acts);
    }

    // Phase 2: commit every pending move.
    let mut i2: usize = 0;
    while i2 < n
        invariant
            0 <= i2 <= n,
            n == robots@.len(),
            n == rv0.len(),
            n == decided.len(),
            n == actions@.len(),
            actions@ == acts,
            decided == spec_decided(rv0, *field),
            acts == spec_actions(rv0, *field),
            field_wf(*field),
            robots_wf(rv0, *field),
            forall|k: int| i2 <= k < n ==> (#[trigger] robots@[k])@ == decided[k],
            forall|k: int|
                0 <= k < i2 ==> (#[trigger] robots@[k])@ == spec_apply_moves(decided, acts)[k],
        decreases n - i2,
    {
        match actions[i2] {
            Action::Move(mx, my) => {
                robots[i2].x = mx;
                robots[i2].y = my;
            },
            _ => {},
        }
        i2 = i2 + 1;
        proof {
            assert(robots@[i2 - 1]@ =~~= spec_apply_moves(decided, acts)[i2 - 1]);
        }
    }
    let ghost moved = spec_apply_moves(decided, acts);
    proof {
        assert(robots_view(robots@) =~= moved);
        assert forall|k: int| 0 <= k < n implies robot_wf(#[trigger] moved[k], *field) by {
            lemma_decide_frame(rv0, k, *field);
            lemma_action_bounds(rv0, k, *field);
            assert(robot_wf(rv0[k], *field));
        }
        assert(robots_wf(moved, *field));
    }

    // Phase 3: commit every pending shot against the targets recorded in
    // phase 1.
    let mut i3: usize = 0;
    while i3 < n
        invariant
            0 <= i3 <= n,
            n == robots@.len(),
            n == rv0.len(),
            n == actions@.len(),
            actions@ == acts,
            acts == spec_actions(rv0, *field),
            field_wf(*field),
            robots_wf(robots_view(robots@), *field),
            spec_apply_shots(robots_view(robots@), acts, i3 as int) == spec_apply_shots(
                moved,
                acts,
                0,
            ),
        decreases n - i3,
    {
        let ghost rs_cur = robots_view(robots@);
        let ghost snap = robots@;
        proof {
            lemma_action_bounds(rv0, i3 as int, *field);
            assert(acts[i3 as int] == spec_decide(rv0, i3 as int, *field).1);
        }
        match actions[i3] {
            Action::Shoot(t) => {
                let h: i32 = robots[t].health;
                let nh: i32 = if h < i32::MIN + 10 {
                    i32::MIN
                } else {
                    h - 10
                };
                robots[t].health = nh;
                proof {
                    let hit = RobotView {
                        health: spec_hit(rs_cur[t as int].health),
                        ..rs_cur[t as int]
                    };
                    assert forall|k: int|
                        0 <= k < n implies #[trigger] robots_view(robots@)[k] == rs_cur.update(
                        t as int,
                        hit,
                    )[k] by {
                        assert(robots_view(robots@)[k] == robots@[k]@);
                        if k != t {
                            assert(robots@[k] == snap[k]);
                        } else {
                            assert(robots@[k]@ =~~= hit);
                        }
                    }
                    assert(robots_view(robots@) =~= rs_cur.update(t as int, hit));
                    assert(robots_wf(robots_view(robots@), *field));
                }
            },
            _ => {},
        }
        i3 = i3 + 1;
    }
    proof {
        assert(robots_view(robots@) == spec_apply_shots(moved, acts, 0));
    }
    let ghost shot = spec_apply_shots(moved, acts, 0);

    // Phase 4: cleanup. Remove every robot whose health is zero or
    // below; this happens only now, so a robot that died this tick still
    // took part in the whole tick.
    let ghost n0 = robots@.len();
    let mut i4: usize = 0;
    let ghost mut j: int = 0;
    proof {
        reveal(Seq::filter);
        assert(shot.subrange(0, 0) =~= Seq::<RobotView>::empty());
        assert(spec_survivors(shot.subrange(0, 0)) =~= Seq::<RobotView>::empty());
        assert(shot.subrange(0, n0 as int) =~= shot);
        assert(robots_view(robots@) =~= spec_survivors(shot.subrange(0, 0)) + shot.subrange(
            0,
            n0 as int,
        ));
    }
    while i4 < robots.len()
        invariant
            0 <= j <= n0,
            n0 == shot.len(),
            i4 as int == spec_survivors(shot.subrange(0, j)).len(),
            robots_view(robots@) =~= spec_survivors(shot.subrange(0, j)) + shot.subrange(
                j,
                n0 as int,
            ),
        decreases n0 - j,
    {
        proof {
            let sv = spec_survivors(shot.subrange(0, j));
            let rest = shot.subrange(j, n0 as int);
            assert(robots_view(robots@).len() == robots@.len());
            assert(robots@.len() as int == sv.len() + rest.len());
            assert(j < n0);
            assert((sv + rest)[i4 as int] == rest[0]);
            assert(rest[0] == shot[j]);
            assert(robots_view(robots@)[i4 as int] == robots@[i4 as int]@);
            assert(robots@[i4 as int]@ == shot[j]);
        }
        let ghost snap4 = robots@;
        if robots[i4].health <= 0 {
            robots.remove(i4);
        } else {
            i4 = i4 + 1;
        }
        proof {
            reveal(Seq::filter);
            let jn = j + 1;
            let sv = spec_survivors(shot.subrange(0, j));
            let svn = spec_survivors(shot.subrange(0, jn));
            assert(shot.subrange(0, jn).drop_last() == shot.subrange(0, j));
            assert(shot.subrange(0, jn).last() == shot[j]);
            assert(shot.subrange(j, n0 as int) =~= seq![shot[j]] + shot.subrange(
                jn,
                n0 as int,
            ));
            if shot[j].health > 0 {
                // The robot stays: the filtered prefix grows by one.
                assert(svn =~= sv.push(shot[j]));
                assert(robots_view(robots@) =~= svn + shot.subrange(jn, n0 as int));
            } else {
                // The robot is removed: the filtered prefix is unchanged.
                assert(svn =~= sv);
                assert(robots@ == snap4.remove(i4 as int));
                let oldv = robots_view(snap4);
                assert(oldv =~= sv + shot.subrange(j, n0 as int));
                assert forall|k: int|
                    0 <= k < robots@.len() implies #[trigger] robots_view(robots@)[k] == (sv
                    + shot.subrange(jn, n0 as int))[k] by {
                    assert(robots_view(robots@)[k] == robots@[k]@);
                    if k < i4 as int {
                        assert(robots@[k] == snap4[k]);
                        assert(robots@[k]@ == oldv[k]);
                        assert(oldv[k] == sv[k]);
                    } else {
                        assert(robots@[k] == snap4[k + 1]);
                        assert(robots@[k]@ == oldv[k + 1]);
                        assert(oldv[k + 1] == shot.subrange(j, n0 as int)[k + 1 - i4]);
                        assert(shot.subrange(j, n0 as int)[k + 1 - i4] == shot[j + (k + 1 - i4)]);
                        assert((sv + shot.subrange(jn, n0 as int))[k] == shot.subrange(
                            jn,
                            n0 as int,
                        )[k - i4]);
                        assert(shot.subrange(jn, n0 as int)[k - i4] == shot[jn + (k - i4)]);
                    }
                }
                assert(robots_view(robots@) =~= svn + shot.subrange(jn, n0 as int));
            }
            j = jn;
        }
    }
    proof {
        assert(j == n0);
        assert(shot.subrange(0, n0 as int) == shot);
        assert(robots_view(robots@) =~= spec_survivors(shot));
        assert(robots_view(robots@) == spec_tick(rv0, *field));
        lemma_apply_shots_frame(moved, acts, 0);
        assert forall|k: int| 0 <= k < shot.len() implies robot_wf(#[trigger] shot[k], *field)
        by {
            assert(robot_wf(moved[k], *field));
        }
        lemma_survivors_wf(shot, *field);
    }
}

/// Health after `m` hits.
pub open spec fn spec_hit_n(h: i32, m: nat) -> i32
    decreases m,
{
    if m == 0 {
        h
    } else {
        spec_hit(spec_hit_n(h, (m - 1) as nat))
    }
}

/// How many of the actions from index `j` on shoot robot `k`.
pub open spec fn spec_shots_at(actions: Seq<Action>, k: int, j: int) -> nat
    decreases actions.len() - j
    when 0 <= j
{
    if j >= actions.len() {
        0
    } else {
        (match actions[j] {
            Action::Shoot(t) => if t as int == k {
                1nat
            } else {
                0nat
            },
            _ => 0nat,
        }) + spec_shots_at(actions, k, j + 1)
    }
}

proof fn lemma_hit_n_shift(h: i32, m: nat)
    ensures
        spec_hit_n(spec_hit(h), m) == spec_hit_n(h, m + 1),
    decreases m,
{
    if m == 0 {
        assert(spec_hit_n(spec_hit(h), 0) == spec_hit(h));
        assert(spec_hit_n(h, 1) == spec_hit(spec_hit_n(h, 0)));
    } else {
        lemma_hit_n_shift(h, (m - 1) as nat);
        assert(spec_hit_n(spec_hit(h), m) == spec_hit(spec_hit_n(spec_hit(h), (m - 1) as nat)));
        assert(spec_hit_n(h, m + 1) == spec_hit(spec_hit_n(h, ((m + 1) - 1) as nat)));
    }
}

/// Law: the order the pending shots commit in is immaterial — what the
/// shot phase does to a robot is a function of its own pre-phase state
/// and of how many shots named it, and nothing else.
pub proof fn lemma_apply_shots_pointwise(
    rs: Seq<RobotView>,
    actions: Seq<Action>,
    j: int,
    k: int,
)
    requires
        0 <= j,
        0 <= k < rs.len(),
    ensures
        spec_apply_shots(rs, actions, j)[k] == (RobotView {
            health: spec_hit_n(rs[k].health, spec_shots_at(actions, k, j)),
            ..rs[k]
        }),
    decreases actions.len() - j,
{
    if j >= actions.len() {
        assert(rs[k] =~~= RobotView { health: spec_hit_n(rs[k].health, 0), ..rs[k] });
    } else {
        let rs2 = match actions[j] {
            Action::Shoot(t) => if (t as int) < rs.len() {
                rs.update(
                    t as int,
                    RobotView { health: spec_hit(rs[t as int].health), ..rs[t as int] },
                )
            } else {
                rs
            },
            _ => rs,
        };
        lemma_apply_shots_pointwise(rs2, actions, j + 1, k);
        match actions[j] {
            Action::Shoot(t) => {
                if t as int == k {
                    assert(rs2[k] == RobotView { health: spec_hit(rs[k].health), ..rs[k] });
                    lemma_hit_n_shift(rs[k].health, spec_shots_at(actions, k, j + 1));
                    assert(spec_apply_shots(rs, actions, j)[k] =~~= (RobotView {
                        health: spec_hit_n(rs[k].health, spec_shots_at(actions, k, j)),
                        ..rs[k]
                    }));
                } else {
                    assert(rs2[k] == rs[k]);
                    assert(spec_apply_shots(rs, actions, j)[k] =~~= (RobotView {
                        health: spec_hit_n(rs[k].health, spec_shots_at(actions, k, j)),
                        ..rs[k]
                    }));
                }
            },
            _ => {
                assert(spec_apply_shots(rs, actions, j)[k] =~~= (RobotView {
                    health: spec_hit_n(rs[k].health, spec_shots_at(actions, k, j)),
                    ..rs[k]
                }));
            },
        }
    }
}

/// Exactly one of the three flags holds.
pub open spec fn exactly_one_flag(c: CoreView) -> bool {
    &&& c.e || c.g || c.l
    &&& !(c.e && c.g)
    &&& !(c.e && c.l)
    &&& !(c.g && c.l)
}

/// An instruction that updates the flags from its signed result.
pub open spec fn is_arith_instr(ins: InstrView) -> bool {
    ||| ins is Add
    ||| ins is Sub
    ||| ins is Cmp
    ||| ins is And
    ||| ins is Or
    ||| ins is Xor
    ||| ins is Not
}

/// Law: executing any arithmetic or compare instruction leaves the flags
/// with exactly one of `e`/`g`/`l` true, whatever the operands and the
/// prior state.
pub proof fn lemma_arith_sets_one_flag(rs: Seq<RobotView>, i: int, field: Field)
    requires
        0 <= i < rs.len(),
        rs[i].core.instructions.len() > 0,
        is_arith_instr(rs[i].core.instructions[spec_fetch_index(rs[i].core)]),
    ensures
        exactly_one_flag(spec_decide(rs, i, field).0.core),
{
}

/// Law: a `Sht` with no candidate ahead still consumes a bullet and
/// unloads the gun, defers nothing, and changes nobody's health — the
/// shooter's included.
pub proof fn lemma_shot_without_target(rs: Seq<RobotView>, i: int, field: Field)
    requires
        0 <= i < rs.len(),
        rs[i].core.instructions.len() > 0,
        rs[i].core.instructions[spec_fetch_index(rs[i].core)] is Sht,
        rs[i].bullets > 0,
        rs[i].gun_loaded,
        spec_target(rs, i) is None,
    ensures
        spec_decide(rs, i, field).1 == Action::Idle,
        spec_decide(rs, i, field).0.bullets == rs[i].bullets - 1,
        !spec_decide(rs, i, field).0.gun_loaded,
        spec_decide(rs, i, field).0.health == rs[i].health,
{
    let r = rs[i];
    let ip0: int = spec_fetch_index(r.core);
    let r0 = RobotView { core: CoreView { ip: ip0 as i16, ..r.core }, ..r };
    let rsu = rs.update(i, r0);
    assert forall|k: int|
        0 <= k < rsu.len() implies ((#[trigger] rsu[k]).x == rs[k].x && rsu[k].y == rs[k].y)
        by {}
    lemma_scan_congruence(rsu, rs, i, 0, i32::MAX as int, None::<int>);
    assert(spec_target(rsu, i) is None);
}

/// Law: every robot in the population a tick hands back has health above
/// zero — a robot reduced to zero or below during the tick is gone
/// before the next one starts.
pub proof fn lemma_tick_leaves_only_living(rs: Seq<RobotView>, field: Field)
    ensures
        forall|k: int|
            0 <= k < spec_tick(rs, field).len() ==> (#[trigger] spec_tick(rs, field)[k]).health
                > 0,
{
    let shot = spec_apply_shots(spec_apply_moves(spec_decided(rs, field), spec_actions(rs, field)), spec_actions(rs, field), 0);
    lemma_filter_alive(shot);
}

proof fn lemma_filter_alive(rs: Seq<RobotView>)
    ensures
        forall|k: int|
            0 <= k < spec_survivors(rs).len() ==> (#[trigger] spec_survivors(rs)[k]).health > 0,
    decreases rs.len(),
{
    reveal(Seq::filter);
    if rs.len() > 0 {
        lemma_filter_alive(rs.drop_last());
    }
}

/// Law: `Mov` and `Nop` force no flag — the flags after the step are the
/// flags before it.
pub proof fn lemma_mov_nop_keep_flags(rs: Seq<RobotView>, i: int, field: Field)
    requires
        0 <= i < rs.len(),
        rs[i].core.instructions.len() > 0,
        rs[i].core.instructions[spec_fetch_index(rs[i].core)] is Mov || rs[i].core.instructions[
            spec_fetch_index(rs[i].core)
        ] is Nop,
    ensures
        spec_decide(rs, i, field).0.core.e == rs[i].core.e,
        spec_decide(rs, i, field).0.core.g == rs[i].core.g,
        spec_decide(rs, i, field).0.core.l == rs[i].core.l,
{
}

} // verus!
