use pycompiler::allocate::Allocation;
use pycompiler::assign_homes::AssignHomes;
use pycompiler::frame::Frame;
use pycompiler::gen::CodeGen;
use pycompiler::interference::BuildInterference;
use pycompiler::liveness::UncoverLive;
use pycompiler::patch::PatchInstructions;
use pycompiler::x86::{Arg, Instr, Reg};

fn var(s: &str) -> Arg {
    Arg::Var(s.to_string())
}

fn texts(v: &[Instr]) -> Vec<String> {
    v.iter().map(|i| i.to_text()).collect()
}

/// Liveness, interference, allocation, homes and patching on a body.
fn allocate_and_patch(body: Vec<Instr>) -> (Vec<Instr>, Vec<(Arg, Arg)>, Frame) {
    let live = UncoverLive::uncover_live(body.iter().map(|i| i.duplicate()).collect());
    let ig = BuildInterference::new().build_graph(live);
    let mut alloc = Allocation::new(ig);
    let (mapping, frame) = alloc.color_graph();
    let homes: Vec<(Arg, Arg)> = mapping.iter().map(|(a, b)| (a.duplicate(), b.duplicate())).collect();
    let placed = AssignHomes::new(body, mapping).assign_homes();
    (PatchInstructions::new(placed).patch_instructions(), homes, frame)
}

fn home_of(homes: &[(Arg, Arg)], v: &str) -> Arg {
    homes.iter().find(|(a, _)| *a == var(v)).map(|(_, h)| h.duplicate()).expect("variable has a home")
}

#[test]
fn read_and_write_sets() {
    let add = Instr::Addq(var("a"), var("b"));
    assert_eq!(add.read_set().len(), 2);
    assert_eq!(add.write_set(), vec![var("b")]);
    let call = Instr::Callq("f".to_string(), 2);
    assert_eq!(call.read_set(), vec![Arg::Reg(Reg::Rdi), Arg::Reg(Reg::Rsi)]);
    assert_eq!(call.write_set().len(), 9);
    let push = Instr::Pushq(Arg::Imm(3));
    assert_eq!(push.read_set(), vec![Arg::Reg(Reg::Rsp)]);
    let mov = Instr::Movq(Arg::Imm(1), Arg::Deref(Reg::Rbp, -8));
    assert!(mov.read_set().is_empty());
    assert!(mov.write_set().is_empty());
}

#[test]
fn liveness_backward() {
    let body = vec![
        Instr::Movq(Arg::Imm(1), var("a")),
        Instr::Movq(Arg::Imm(2), var("b")),
        Instr::Addq(var("a"), var("b")),
        Instr::Movq(var("b"), Arg::Reg(Reg::Rax)),
    ];
    let live = UncoverLive::uncover_live(body);
    assert_eq!(live.len(), 4);
    assert!(live[3].1.iter().is_empty());
    assert_eq!(live[2].1.iter(), &vec![var("b")]);
    assert_eq!(live[1].1.iter().len(), 2);
    assert_eq!(live[0].1.iter(), &vec![var("a")]);
}

#[test]
fn interference_of_move() {
    let body = vec![
        Instr::Movq(Arg::Imm(1), var("a")),
        Instr::Movq(Arg::Imm(2), var("b")),
        Instr::Movq(var("a"), var("c")),
        Instr::Addq(var("b"), var("c")),
        Instr::Movq(var("c"), Arg::Reg(Reg::Rax)),
    ];
    let live = UncoverLive::uncover_live(body);
    let ig = BuildInterference::new().build_graph(live);
    let idx = |v: &str| ig.locs.iter().position(|a| *a == var(v)).unwrap();
    let nb = |v: &str| -> Vec<usize> { ig.graph.neighbors(petgraph::graph::NodeIndex::new(idx(v))).map(|n| n.index()).collect() };
    assert!(nb("c").contains(&idx("b")));
    assert!(nb("b").contains(&idx("a")));
    assert!(!nb("c").contains(&idx("a")));
}

#[test]
fn patch_removes_memory_pairs_and_self_moves() {
    let m1 = Arg::Deref(Reg::Rbp, -8);
    let m2 = Arg::Deref(Reg::Rbp, -16);
    let body = vec![
        Instr::Addq(m1.duplicate(), m2.duplicate()),
        Instr::Movq(Arg::Reg(Reg::Rcx), Arg::Reg(Reg::Rcx)),
        Instr::Movq(m1.duplicate(), m2.duplicate()),
        Instr::Subq(m1.duplicate(), m2.duplicate()),
        Instr::Negq(m1.duplicate()),
    ];
    let out = texts(&PatchInstructions::new(body).patch_instructions());
    assert_eq!(
        out,
        vec![
            "movq -16(%rbp), %rax",
            "addq -8(%rbp), %rax",
            "movq %rax, -16(%rbp)",
            "movq -8(%rbp), %rax",
            "movq %rax, -16(%rbp)",
            "movq -16(%rbp), %rax",
            "subq -8(%rbp), %rax",
            "movq %rax, -16(%rbp)",
            "negq -8(%rbp)",
        ]
    );
}

#[test]
fn frame_layout_and_alignment() {
    let mut f = Frame::new(vec![Reg::Rbx]);
    assert_eq!(f.real_size, 8);
    let slot = f.alloc_local(8);
    assert_eq!(slot, Arg::Deref(Reg::Rbp, -16));
    let slot = f.alloc_local(5);
    assert_eq!(slot, Arg::Deref(Reg::Rbp, -24));
    assert_eq!(f.alloc_local(0), Arg::Reg(Reg::Rbp));
    assert_eq!(texts(&f.alloc_frame()), vec!["pushq %rbx", "subq $24, %rsp"]);
    assert_eq!(texts(&f.free_frame()), vec!["addq $24, %rsp", "popq %rbx"]);
    // return address, saved %rbp, callee-saved pushes and the adjustment
    assert_eq!((16 + 8 + 24) % 16, 0);
}

#[test]
fn epilogue_pops_in_reverse() {
    let f = Frame::new(vec![Reg::Rbx, Reg::R12]);
    assert_eq!(texts(&f.alloc_frame()), vec!["pushq %rbx", "pushq %r12", "subq $0, %rsp"]);
    assert_eq!(texts(&f.free_frame()), vec!["addq $0, %rsp", "popq %r12", "popq %rbx"]);
}

#[test]
fn code_gen_wraps_body() {
    let f = Frame::new(vec![]);
    let out = texts(&CodeGen::new(vec![Instr::Movq(Arg::Imm(1), Arg::Reg(Reg::Rax))], f).code_gen());
    assert_eq!(
        out,
        vec![
            "pushq %rbp",
            "movq %rsp, %rbp",
            "subq $0, %rsp",
            "movq $1, %rax",
            "addq $0, %rsp",
            "popq %rbp",
            "retq",
        ]
    );
}

#[test]
fn assign_homes_substitutes() {
    let body = vec![Instr::Movq(var("x"), var("y")), Instr::Jump("L".to_string())];
    let mapping = vec![(var("x"), Arg::Reg(Reg::Rcx)), (var("y"), Arg::Deref(Reg::Rbp, -8))];
    let out = texts(&AssignHomes::new(body, mapping).assign_homes());
    assert_eq!(out, vec!["movq %rcx, -8(%rbp)", "jmpq L"]);
}

#[test]
fn twelve_live_variables_spill_one() {
    let names: Vec<String> = (1..=12).map(|k| format!("v{}", k)).collect();
    let mut body = vec![];
    for (k, n) in names.iter().enumerate() {
        body.push(Instr::Movq(Arg::Imm(k as i64 + 1), var(n)));
    }
    for n in &names {
        body.push(Instr::Addq(var(n), Arg::Reg(Reg::Rax)));
    }
    let (out, homes, frame) = allocate_and_patch(body);
    assert_eq!(frame.saved_callee, vec![Reg::Rbx, Reg::R12, Reg::R13, Reg::R14]);
    assert_eq!(frame.real_size, 40);
    let prologue = texts(&frame.alloc_frame());
    assert_eq!(prologue.last().unwrap(), "subq $16, %rsp");
    assert_eq!((16 + 8 * frame.saved_callee.len() + 16) % 16, 0);
    let spilled = names.iter().filter(|n| matches!(home_of(&homes, n), Arg::Deref(_, _))).count();
    assert_eq!(spilled, 1);
    for n in &names {
        for m in &names {
            if n != m {
                assert_ne!(home_of(&homes, n), home_of(&homes, m));
            }
        }
    }
    for i in &out {
        if let Instr::Addq(s, d) | Instr::Subq(s, d) | Instr::Movq(s, d) = i {
            assert!(!(s.is_mem() && d.is_mem()));
        }
    }
}

#[test]
fn move_bias_shares_home() {
    let body = vec![
        Instr::Movq(Arg::Imm(1), var("b")),
        Instr::Movq(var("b"), var("a")),
        Instr::Movq(var("a"), var("c")),
        Instr::Addq(var("c"), Arg::Reg(Reg::Rax)),
    ];
    let (out, homes, _frame) = allocate_and_patch(body);
    assert_eq!(home_of(&homes, "a"), home_of(&homes, "b"));
    assert_eq!(home_of(&homes, "c"), home_of(&homes, "a"));
    assert_eq!(out.len(), 2);
}

#[test]
fn precolored_registers_keep_their_color() {
    let body = vec![
        Instr::Movq(Arg::Imm(1), var("x")),
        Instr::Movq(Arg::Imm(2), Arg::Reg(Reg::Rcx)),
        Instr::Addq(var("x"), Arg::Reg(Reg::Rcx)),
        Instr::Movq(Arg::Reg(Reg::Rcx), Arg::Reg(Reg::Rax)),
    ];
    let (_out, homes, _frame) = allocate_and_patch(body);
    assert_eq!(home_of_arg(&homes, &Arg::Reg(Reg::Rcx)), Arg::Reg(Reg::Rcx));
    assert_ne!(home_of(&homes, "x"), Arg::Reg(Reg::Rcx));
}

fn home_of_arg(homes: &[(Arg, Arg)], a: &Arg) -> Arg {
    homes.iter().find(|(x, _)| x == a).map(|(_, h)| h.duplicate()).unwrap()
}

#[test]
fn assign_homes_leaves_registers() {
    let body = vec![Instr::Pushq(Arg::Reg(Reg::Rax)), Instr::Movq(var("x"), Arg::Reg(Reg::Rax))];
    let mapping = vec![(Arg::Reg(Reg::Rax), Arg::Reg(Reg::Rcx)), (var("x"), Arg::Reg(Reg::Rdx))];
    let out = texts(&AssignHomes::new(body, mapping).assign_homes());
    assert_eq!(out, vec!["pushq %rax", "movq %rdx, %rax"]);
}
