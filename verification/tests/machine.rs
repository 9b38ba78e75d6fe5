use hbot::parser::Value;
use hbot::robot::{step_robot, Action, Core, Field, Robot};

fn field() -> Field {
    Field {
        width: 10,
        height: 10,
    }
}

fn robot_with(src: &str) -> Robot {
    let mut r = Robot::default();
    r.core.source = src.to_string();
    r.core.compile();
    r
}

fn step_one(r: Robot) -> (Robot, Action) {
    let f = field();
    let mut pop = vec![r];
    let a = step_robot(0, &mut pop, &f);
    (pop.pop().unwrap(), a)
}

#[test]
fn empty_program_does_nothing() {
    let (r, a) = step_one(Robot::default());
    assert_eq!(a, Action::Idle);
    assert_eq!(r.core.ip, 0);
}

#[test]
fn arithmetic_sets_exactly_one_flag() {
    // After any arithmetic or compare op exactly one of e/g/l is true.
    let cases = [
        ("add a, 1", (false, true, false)),  // 1 > 0
        ("sub a, 1", (false, false, true)),  // -1 < 0
        ("cmp a, a", (true, false, false)),  // 0
        ("and a, 1", (true, false, false)),  // 0
        ("or a, 3", (false, true, false)),   // 3
        ("xor a, a", (true, false, false)),  // 0
        ("not a", (false, false, true)),     // !0 = -1
    ];
    for (src, (e, g, l)) in cases {
        let (r, _) = step_one(robot_with(src));
        assert_eq!((r.core.e, r.core.g, r.core.l), (e, g, l), "{}", src);
        let set = [r.core.e, r.core.g, r.core.l]
            .iter()
            .filter(|f| **f)
            .count();
        assert_eq!(set, 1, "{}", src);
    }
}

#[test]
fn mov_and_nop_force_no_flag() {
    for src in ["mov a, 5", "nop"] {
        let (r, _) = step_one(robot_with(src));
        assert!(!r.core.e && !r.core.g && !r.core.l, "{}", src);
    }
}

#[test]
fn mov_stores_into_register() {
    let (r, _) = step_one(robot_with("mov b, 41"));
    assert_eq!(r.core.b, 41);
    assert_eq!(r.core.a, 0);
}

#[test]
fn add_wraps_at_16_bits() {
    let mut r = robot_with("add a, 1");
    r.core.a = i16::MAX;
    let (r, _) = step_one(r);
    assert_eq!(r.core.a, i16::MIN);
    assert!(r.core.l);
}

#[test]
fn one_instruction_program_wraps_ip() {
    // Stepping a 1-instruction program repeatedly executes instruction 0
    // every time: the counter wraps back instead of halting.
    let (r, _) = step_one(robot_with("add a, 1"));
    assert_eq!(r.core.ip, 1);
    assert_eq!(r.core.a, 1);
    let (r, _) = step_one(r);
    assert_eq!(r.core.ip, 1);
    assert_eq!(r.core.a, 2);
}

#[test]
fn jmp_lands_on_target() {
    // jmp 0 sets ip to -1 and the post-step increment brings it to 0,
    // so the program loops on itself.
    let (r, _) = step_one(robot_with("jmp 0 \n nop"));
    assert_eq!(r.core.ip, 0);
}

#[test]
fn conditional_jumps_respect_flags() {
    // Without the e flag, je falls through.
    let (r, _) = step_one(robot_with("je 0 \n nop"));
    assert_eq!(r.core.ip, 1);
    // With the e flag set, je jumps.
    let mut r = robot_with("je 0 \n nop");
    r.core.e = true;
    let (r, _) = step_one(r);
    assert_eq!(r.core.ip, 0);
    let mut r = robot_with("jg 0 \n nop");
    r.core.g = true;
    let (r, _) = step_one(r);
    assert_eq!(r.core.ip, 0);
    let mut r = robot_with("jl 0 \n nop");
    r.core.l = true;
    let (r, _) = step_one(r);
    assert_eq!(r.core.ip, 0);
}

#[test]
fn rol_cycles_clockwise_and_back() {
    let mut r = robot_with("rol");
    r.core.source = "rol \n rol \n rol \n rol".to_string();
    r.core.compile();
    assert_eq!(r.direction, (0, 1));
    let (r, _) = step_one(r);
    assert_eq!(r.direction, (1, 0));
    let (r, _) = step_one(r);
    assert_eq!(r.direction, (0, -1));
    let (r, _) = step_one(r);
    assert_eq!(r.direction, (-1, 0));
    let (r, _) = step_one(r);
    assert_eq!(r.direction, (0, 1));
}

#[test]
fn ror_reverses_rol() {
    let mut r = robot_with("ror \n rol");
    let f = field();
    let mut pop = vec![r];
    step_robot(0, &mut pop, &f);
    assert_eq!(pop[0].direction, (-1, 0));
    step_robot(0, &mut pop, &f);
    assert_eq!(pop[0].direction, (0, 1));
    r = pop.pop().unwrap();
    assert_eq!(r.core.ip, 2);
}

#[test]
fn fwd_defers_a_clamped_move() {
    // Fwd does not move the robot directly: it records the clamped
    // destination as a pending action.
    let mut r = robot_with("fwd");
    r.x = 3;
    r.y = 9;
    let (r, a) = step_one(r);
    assert_eq!(a, Action::Move(3, 9)); // clamped at the top edge
    assert_eq!((r.x, r.y), (3, 9)); // position itself untouched
}

#[test]
fn fwd_clamps_at_origin() {
    let mut r = robot_with("fwd");
    r.direction = (0, -1);
    let (_, a) = step_one(r);
    assert_eq!(a, Action::Move(0, 0));
}

#[test]
fn rld_reloads_immediately() {
    let mut r = robot_with("rld");
    r.gun_loaded = false;
    let (r, a) = step_one(r);
    assert!(r.gun_loaded);
    assert_eq!(a, Action::Idle);
}

#[test]
fn see_is_an_unhandled_no_op() {
    let (r, a) = step_one(robot_with("see"));
    assert_eq!(a, Action::Idle);
    assert_eq!(r.core.ip, 1);
    assert!(!r.core.e && !r.core.g && !r.core.l);
}

#[test]
fn resolve_value_reads_registers_and_defaults() {
    let mut r = Robot::default();
    r.core.a = 7;
    r.core.ip = 3;
    assert_eq!(r.resolve_value(&Value::Immediate(9)), 9);
    assert_eq!(r.resolve_value(&Value::Register("a".to_string())), 7);
    assert_eq!(r.resolve_value(&Value::Register("ip".to_string())), 3);
    assert_eq!(r.resolve_value(&Value::Register("nope".to_string())), 0);
    assert_eq!(r.resolve_value(&Value::Identifier("lbl".to_string())), 0);
}

#[test]
fn store_value_ignores_non_register_destinations() {
    let mut r = Robot::default();
    r.store_value(&Value::Immediate(4), 99);
    r.store_value(&Value::Identifier("x".to_string()), 99);
    assert_eq!((r.core.a, r.core.b, r.core.c, r.core.ip), (0, 0, 0, 0));
    r.store_value(&Value::Register("c".to_string()), 99);
    assert_eq!(r.core.c, 99);
}

#[test]
fn update_flags_is_exclusive() {
    let mut r = Robot::default();
    r.update_flags(0);
    assert_eq!((r.core.e, r.core.g, r.core.l), (true, false, false));
    r.update_flags(12);
    assert_eq!((r.core.e, r.core.g, r.core.l), (false, true, false));
    r.update_flags(-3);
    assert_eq!((r.core.e, r.core.g, r.core.l), (false, false, true));
}

#[test]
fn recompile_replaces_program_wholesale() {
    let mut c = Core::default();
    c.source = "nop \n nop".to_string();
    c.compile();
    assert_eq!(c.instructions.len(), 2);
    c.source = "fwd".to_string();
    c.compile();
    assert_eq!(c.instructions.len(), 1);
    c.compile();
    assert_eq!(c.instructions.len(), 1);
}

#[test]
fn current_line_reports_fetched_instruction() {
    let mut c = Core::default();
    c.source = "nop\n\nfwd".to_string();
    c.compile();
    c.ip = 1;
    assert_eq!(c.current_line(), 2);
}

#[test]
fn immediates_fit_or_wrap() {
    // 32767 is the widest positive literal; 32768 and 65535 reinterpret
    // as the corresponding 16-bit signed values; 65536 wraps to 0.
    let cases = [
        ("mov a, 32767", i16::MAX),
        ("mov a, 32768", i16::MIN),
        ("mov a, 65535", -1),
        ("mov a, 65536", 0),
    ];
    for (src, want) in cases {
        let (r, _) = step_one(robot_with(src));
        assert_eq!(r.core.a, want, "{}", src);
    }
}

#[test]
fn mov_to_ip_register_jumps() {
    let (r, _) = step_one(robot_with("mov ip, 5 \n nop"));
    // The store lands first, then the unconditional increment.
    assert_eq!(r.core.ip, 6);
}
