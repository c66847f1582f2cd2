use pycompiler::allocate::Allocation;
use pycompiler::assign_homes::AssignHomes;
use pycompiler::ast::{Expr, ExprData, Stmt, StmtData};
use pycompiler::clike;
use pycompiler::explicate_control::ExplicateControl;
use pycompiler::interference::BuildInterference;
use pycompiler::liveness::UncoverLive;
use pycompiler::patch::PatchInstructions;
use pycompiler::rco::RemoveComplexOperands;
use pycompiler::select_instructions::SelectInstructions;
use pycompiler::shrink::Shrink;
use pycompiler::token::{Kind, Token};
use pycompiler::x86::{Arg, Instr};

fn tok(kind: Kind, s: &str) -> Token {
    Token::new(kind, s.to_string(), 1, 0)
}

fn num(i: i64) -> Expr {
    Expr::new(ExprData::Int(i), (0, 0))
}

fn boolean(b: bool) -> Expr {
    Expr::new(ExprData::Bool(b), (0, 0))
}

fn name(s: &str) -> Expr {
    Expr::new(ExprData::Name(tok(Kind::Name, s)), (0, 0))
}

fn bin(kind: Kind, text: &str, a: Expr, b: Expr) -> Expr {
    Expr::new(ExprData::Prim { op: tok(kind, text), operands: vec![a, b] }, (0, 0))
}

fn call(f: &str, args: Vec<Expr>) -> Expr {
    Expr::new(ExprData::Call { name: Box::new(name(f)), args }, (0, 0))
}

fn cond(c: Expr, t: Expr, e: Expr) -> Expr {
    Expr::new(ExprData::Condition { condition: Box::new(c), then: Box::new(t), else_: Box::new(e) }, (0, 0))
}

fn assign(v: &str, e: Expr) -> Stmt {
    Stmt { stmt: StmtData::Assign { name: tok(Kind::Name, v), binding: e }, range: (0, 0) }
}

fn expr_stmt(e: Expr) -> Stmt {
    Stmt { stmt: StmtData::Expr(e), range: (0, 0) }
}

fn texts(v: &[Instr]) -> Vec<String> {
    v.iter().map(|i| i.to_text()).collect()
}

fn select(stmts: Vec<Stmt>) -> Vec<Instr> {
    let flat = RemoveComplexOperands::new().rco_stmts(Shrink::shrink_stmts(stmts));
    SelectInstructions::new().select_stmts(flat)
}

fn compile(stmts: Vec<Stmt>) -> Vec<String> {
    let body = select(stmts);
    let live = UncoverLive::uncover_live(body.iter().map(|i| i.duplicate()).collect());
    let ig = BuildInterference::new().build_graph(live);
    let (mapping, _frame) = Allocation::new(ig).color_graph();
    let placed = AssignHomes::new(body, mapping).assign_homes();
    texts(&PatchInstructions::new(placed).patch_instructions())
}

fn is_atom(e: &Expr) -> bool {
    e.is_atom()
}

#[test]
fn add_then_print() {
    let prog = vec![
        assign("x", num(10)),
        expr_stmt(call("print_int", vec![bin(Kind::Plus, "+", name("x"), num(32))])),
    ];
    let out = compile(prog);
    let load = out.iter().find(|s| s.starts_with("movq $10, ")).expect("load of 10");
    let reg = load.trim_start_matches("movq $10, ").to_string();
    assert!(reg.starts_with('%'));
    assert!(out.contains(&format!("addq $32, {}", reg)));
    assert!(out.contains(&format!("movq {}, %rdi", reg)));
    assert!(out.contains(&"callq print_int".to_string()));
}

#[test]
fn nested_sums_use_two_temporaries() {
    let prog = vec![assign(
        "y",
        bin(Kind::Plus, "+", bin(Kind::Plus, "+", num(1), num(2)), bin(Kind::Plus, "+", num(3), num(4))),
    )];
    let flat = RemoveComplexOperands::new().rco_stmts(Shrink::shrink_stmts(prog));
    assert_eq!(flat.len(), 3);
    for s in &flat {
        if let StmtData::Assign { binding, .. } = &s.stmt {
            if let ExprData::Prim { operands, .. } = &binding.data {
                assert!(operands.iter().all(is_atom));
            }
        }
    }
    let out = texts(&SelectInstructions::new().select_stmts(flat));
    assert_eq!(
        out,
        vec![
            "movq $1, %tmp0",
            "addq $2, %tmp0",
            "movq $3, %tmp1",
            "addq $4, %tmp1",
            "movq %tmp0, y",
            "addq %tmp1, y",
        ]
    );
    let allocated = compile(vec![assign(
        "y",
        bin(Kind::Plus, "+", bin(Kind::Plus, "+", num(1), num(2)), bin(Kind::Plus, "+", num(3), num(4))),
    )]);
    assert_eq!(allocated.iter().filter(|s| s.starts_with("addq")).count(), 3);
}

#[test]
fn in_place_addition() {
    let out = texts(&select(vec![assign("x", bin(Kind::Plus, "+", num(1), name("x")))]));
    assert_eq!(out, vec!["addq $1, x"]);
    let out = texts(&select(vec![assign("x", bin(Kind::Minus, "-", name("x"), num(1)))]));
    assert_eq!(out, vec!["subq $1, x"]);
}

#[test]
fn call_with_eight_arguments() {
    let args: Vec<Expr> = (1..=8).map(num).collect();
    let out = texts(&select(vec![expr_stmt(call("f", args))]));
    assert_eq!(
        out,
        vec![
            "movq $1, %rdi",
            "movq $2, %rsi",
            "movq $3, %rdx",
            "movq $4, %rcx",
            "movq $5, %r8",
            "movq $6, %r9",
            "pushq $8",
            "pushq $7",
            "callq f",
            "addq $16, %rsp",
        ]
    );
}

#[test]
fn conditional_assignment_blocks() {
    let prog = vec![assign("z", cond(boolean(true), num(5), num(7)))];
    let p = ExplicateControl::explicate_control(&prog).unwrap();
    let assigning: Vec<&(String, Vec<clike::Stmt>)> = p
        .blocks
        .iter()
        .filter(|(_, b)| matches!(&b[0], clike::Stmt::Assign { name: clike::Atom::Name(n), .. } if n == "z"))
        .collect();
    assert_eq!(assigning.len(), 2);
    let join_of = |b: &Vec<clike::Stmt>| match &b[1] {
        clike::Stmt::Goto(l) => l.clone(),
        _ => panic!("branch ends in a jump"),
    };
    assert_eq!(join_of(&assigning[0].1), join_of(&assigning[1].1));
    let start = p.blocks.iter().find(|(l, _)| l == "start").unwrap();
    let first = match &start.1[0] {
        clike::Stmt::Goto(l) => l.clone(),
        _ => panic!("start jumps to the chosen branch"),
    };
    let chosen = &p.blocks.iter().find(|(l, _)| *l == first).unwrap().1;
    assert!(matches!(&chosen[0], clike::Stmt::Assign { binding: clike::Expr::Atom(clike::Atom::Int(5)), .. }));

    let prog = vec![assign("z", cond(bin(Kind::Less, "<", name("a"), num(1)), num(5), num(7)))];
    let p = ExplicateControl::explicate_control(&prog).unwrap();
    let assigning = p
        .blocks
        .iter()
        .filter(|(_, b)| matches!(&b[0], clike::Stmt::Assign { name: clike::Atom::Name(n), .. } if n == "z"))
        .count();
    assert_eq!(assigning, 2);
    for (_, b) in &p.blocks {
        assert!(b.last().unwrap().is_tail());
        assert!(b[..b.len() - 1].iter().all(|s| !s.is_tail()));
        for s in b {
            if let clike::Stmt::Goto(l) = s {
                assert!(p.blocks.iter().any(|(m, _)| m == l));
            }
        }
    }
}

#[test]
fn not_swaps_branches() {
    let not = Expr::new(
        ExprData::Prim { op: tok(Kind::Bang, "not"), operands: vec![bin(Kind::Less, "<", name("a"), num(1))] },
        (0, 0),
    );
    let prog = vec![assign("z", cond(not, num(5), num(7)))];
    let p = ExplicateControl::explicate_control(&prog).unwrap();
    let start = &p.blocks.iter().find(|(l, _)| l == "start").unwrap().1;
    if let clike::Stmt::If { then, .. } = &start[0] {
        let target = &p.blocks.iter().find(|(l, _)| l == then).unwrap().1;
        assert!(matches!(&target[0], clike::Stmt::Assign { binding: clike::Expr::Atom(clike::Atom::Int(7)), .. }));
    } else {
        panic!("expected a branch");
    }
}

#[test]
fn explicate_rejects_nested_operands() {
    let prog = vec![assign("z", bin(Kind::Plus, "+", bin(Kind::Plus, "+", num(1), num(2)), num(3)))];
    assert!(matches!(ExplicateControl::explicate_control(&prog), Err(clike::ClikeError::IntoAtom)));
}

#[test]
fn shrink_rewrites_and_or() {
    let prog = vec![
        expr_stmt(bin(Kind::And, "and", name("a"), name("b"))),
        expr_stmt(bin(Kind::Or, "or", name("a"), bin(Kind::And, "and", name("b"), name("c")))),
    ];
    let once = Shrink::shrink_stmts(prog);
    match &once[0].stmt {
        StmtData::Expr(Expr { data: ExprData::Condition { else_, .. }, .. }) => {
            assert!(matches!(else_.data, ExprData::Bool(false)));
        },
        _ => panic!("and becomes a conditional"),
    }
    match &once[1].stmt {
        StmtData::Expr(Expr { data: ExprData::Condition { then, else_, .. }, .. }) => {
            assert!(matches!(then.data, ExprData::Bool(true)));
            assert!(matches!(else_.data, ExprData::Condition { .. }));
        },
        _ => panic!("or becomes a conditional"),
    }
    let first = format!("{:?}", once);
    let twice = Shrink::shrink_stmts(once);
    assert_eq!(first, format!("{:?}", twice));
}

#[test]
fn rco_keeps_atoms() {
    let flat = RemoveComplexOperands::new().rco_stmts(vec![assign("x", num(3))]);
    assert_eq!(flat.len(), 1);
    let flat = RemoveComplexOperands::new().rco_stmts(vec![expr_stmt(call(
        "print_int",
        vec![bin(Kind::Minus, "-", num(5), bin(Kind::Plus, "+", num(1), num(2)))],
    ))]);
    assert_eq!(flat.len(), 3);
    if let StmtData::Expr(Expr { data: ExprData::Call { args, .. }, .. }) = &flat[2].stmt {
        assert!(args.iter().all(is_atom));
    } else {
        panic!("call comes last");
    }
}

#[test]
fn and_or_arity_check() {
    let ok = vec![expr_stmt(bin(Kind::And, "and", name("a"), name("b")))];
    assert!(pycompiler::shrink::stmts_binary(&ok));
    let bad = vec![expr_stmt(Expr::new(ExprData::Prim { op: tok(Kind::Or, "or"), operands: vec![name("a")] }, (0, 0)))];
    assert!(!pycompiler::shrink::stmts_binary(&bad));
}
