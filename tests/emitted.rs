use std::collections::HashMap;
use vm_translator::{
    add, and, call, eq, function, goto, gt, if_goto, label, lt, neg, not, or, parse_file,
    parse_line, pop, push, return_, sanitize, static_name, sub, Diagnostic, LabelAllocator,
    ParseError, Segment, Translator,
};

/// A small interpreter of the emitted text, for checking what code does.
struct Machine {
    a: i32,
    d: i32,
    ram: Vec<i32>,
    pc: usize,
}

fn wrap(v: i32) -> i32 {
    ((v as i64).rem_euclid(65536)) as i32
}

fn signed(v: i32) -> i32 {
    if v >= 32768 { v - 65536 } else { v }
}

fn run(program: &str, m: &mut Machine, max_steps: usize) {
    let lines: Vec<&str> = program
        .lines()
        .map(|l| l.trim())
        .filter(|l| !l.is_empty() && !l.starts_with("//"))
        .collect();
    let mut prog: Vec<&str> = Vec::new();
    let mut labels: HashMap<String, usize> = HashMap::new();
    for l in &lines {
        if l.starts_with('(') {
            labels.insert(l[1..l.len() - 1].to_string(), prog.len());
        } else {
            prog.push(l);
        }
    }
    let mut vars: HashMap<String, i32> = HashMap::new();
    let regs = [("SP", 0), ("LCL", 1), ("ARG", 2), ("THIS", 3), ("THAT", 4), ("R13", 13), ("R14", 14)];
    let mut steps = 0;
    while m.pc < prog.len() && steps < max_steps {
        steps += 1;
        let ins = prog[m.pc];
        m.pc += 1;
        if let Some(sym) = ins.strip_prefix('@') {
            m.a = if let Ok(n) = sym.parse::<i32>() {
                n
            } else if let Some((_, v)) = regs.iter().find(|(n, _)| *n == sym) {
                *v
            } else if let Some(p) = labels.get(sym) {
                *p as i32
            } else {
                let next = 16 + vars.len() as i32;
                *vars.entry(sym.to_string()).or_insert(next)
            };
            continue;
        }
        let (rest, jump) = match ins.split_once(';') {
            Some((c, j)) => (c, Some(j)),
            None => (ins, None),
        };
        let (dest, comp) = match rest.split_once('=') {
            Some((d, c)) => (d, c),
            None => ("", rest),
        };
        let mv = m.ram[m.a as usize];
        let (a, d) = (m.a, m.d);
        let v = wrap(match comp {
            "0" => 0,
            "-1" => -1,
            "D" => d,
            "A" => a,
            "M" => mv,
            "!M" => !mv,
            "-M" => -mv,
            "M+1" => mv + 1,
            "M-1" => mv - 1,
            "M+D" => mv + d,
            "M-D" => mv - d,
            "D&M" => d & mv,
            "D|M" => d | mv,
            "A+D" => a + d,
            "D-A" => d - a,
            other => panic!("unknown computation {}", other),
        });
        if dest.contains('M') {
            m.ram[a as usize] = v;
        }
        if dest.contains('D') {
            m.d = v;
        }
        if dest.contains('A') {
            m.a = v;
        }
        let s = signed(v);
        let taken = match jump {
            None => false,
            Some("JEQ") => s == 0,
            Some("JGT") => s > 0,
            Some("JLT") => s < 0,
            Some("JNE") => s != 0,
            Some("JMP") => true,
            Some(other) => panic!("unknown jump {}", other),
        };
        if taken {
            m.pc = m.a as usize;
        }
    }
}

fn machine() -> Machine {
    let mut ram = vec![0; 4096];
    ram[0] = 256;
    ram[1] = 300;
    ram[2] = 400;
    ram[3] = 3000;
    ram[4] = 3010;
    Machine { a: 0, d: 0, ram, pc: 0 }
}

#[test]
fn add_of_seven_and_eight_leaves_fifteen() {
    let out = parse_file("push constant 7\npush constant 8\nadd", "Main");
    assert!(out.diagnostics.is_empty());
    let mut m = machine();
    run(&out.text, &mut m, 1000);
    assert_eq!(m.ram[0], 257);
    assert_eq!(m.ram[256], 15);
}

#[test]
fn eq_of_equal_values_pushes_true() {
    let out = parse_file("push constant 0\npush constant 0\neq", "Main");
    let mut m = machine();
    run(&out.text, &mut m, 1000);
    assert_eq!(m.ram[0], 257);
    assert_eq!(m.ram[256], 0xFFFF);
}

#[test]
fn comparisons_push_true_or_false() {
    let cases = [
        ("push constant 3\npush constant 5\nlt", 0xFFFF),
        ("push constant 5\npush constant 3\nlt", 0),
        ("push constant 5\npush constant 3\ngt", 0xFFFF),
        ("push constant 3\npush constant 3\ngt", 0),
        ("push constant 3\npush constant 4\neq", 0),
    ];
    for (prog, want) in cases {
        let out = parse_file(prog, "Main");
        let mut m = machine();
        run(&out.text, &mut m, 1000);
        assert_eq!(m.ram[0], 257);
        assert_eq!(m.ram[256], want);
    }
}

#[test]
fn arithmetic_and_logic() {
    let cases = [
        ("push constant 9\npush constant 4\nsub", 5),
        ("push constant 9\nneg", 65536 - 9),
        ("push constant 12\npush constant 10\nand", 8),
        ("push constant 12\npush constant 10\nor", 14),
        ("push constant 0\nnot", 0xFFFF),
    ];
    for (prog, want) in cases {
        let out = parse_file(prog, "Main");
        let mut m = machine();
        run(&out.text, &mut m, 1000);
        assert_eq!(m.ram[0], 257);
        assert_eq!(m.ram[256], want);
    }
}

#[test]
fn push_then_pop_round_trips() {
    for seg in ["local", "argument", "this", "that", "temp", "pointer", "static"] {
        let prog = format!("push constant 42\npop {seg} 1\npush {seg} 1\npop {seg} 0");
        let out = parse_file(&prog, "Main");
        assert!(out.diagnostics.is_empty());
        let mut m = machine();
        run(&out.text, &mut m, 1000);
        assert_eq!(m.ram[0], 256);
        let base = match seg {
            "local" => 300,
            "argument" => 400,
            "this" => 3000,
            "that" => 3010,
            "temp" => 5,
            "pointer" => 3,
            _ => 16,
        };
        if seg == "static" {
            assert_eq!(m.ram[16], 42);
            assert_eq!(m.ram[17], 42);
        } else if seg == "pointer" {
            assert_eq!(m.ram[3], 42);
            assert_eq!(m.ram[4], 42);
        } else {
            assert_eq!(m.ram[base], 42);
            assert_eq!(m.ram[base + 1], 42);
        }
    }
}

#[test]
fn if_goto_pops_one_value_either_way() {
    for (v, jumps) in [(0, false), (1, true)] {
        let prog = format!("push constant 5\npush constant {v}\nif-goto END\npush constant 9\nlabel END");
        let out = parse_file(&prog, "Main");
        let mut m = machine();
        run(&out.text, &mut m, 1000);
        if jumps {
            assert_eq!(m.ram[0], 257);
        } else {
            assert_eq!(m.ram[0], 258);
            assert_eq!(m.ram[257], 9);
        }
        assert_eq!(m.ram[256], 5);
    }
}

#[test]
fn call_and_return_restore_the_caller() {
    let prog = "push constant 10\npush constant 20\ncall Main.add 2\ngoto HALT\n\
                function Main.add 1\npush argument 0\npush argument 1\nadd\nreturn\nlabel HALT";
    let out = parse_file(prog, "Main");
    assert!(out.diagnostics.is_empty());
    let mut m = machine();
    run(&out.text, &mut m, 10000);
    assert_eq!(m.ram[0], 257);
    assert_eq!(m.ram[256], 30);
    assert_eq!(m.ram[1], 300);
    assert_eq!(m.ram[2], 400);
    assert_eq!(m.ram[3], 3000);
    assert_eq!(m.ram[4], 3010);
}

#[test]
fn add_text_is_exact() {
    assert_eq!(add(), "//add\n@SP\nM=M-1\nA=M\nD=M\n@SP\nM=M-1\nA=M\nM=M+D\n@SP\nM=M+1\n");
    assert_eq!(sub(), "//sub\n@SP\nM=M-1\nA=M\nD=M\n@SP\nM=M-1\nA=M\nM=M-D\n@SP\nM=M+1\n");
    assert_eq!(and(), "//and\n@SP\nM=M-1\nA=M\nD=M\n@SP\nM=M-1\nA=M\nM=D&M\n@SP\nM=M+1\n");
    assert_eq!(or(), "//or\n@SP\nM=M-1\nA=M\nD=M\n@SP\nM=M-1\nA=M\nM=D|M\n@SP\nM=M+1\n");
    assert_eq!(neg(), "//neg\n@SP\nM=M-1\nA=M\nM=-M\n@SP\nM=M+1\n");
    assert_eq!(not(), "//not\n@SP\nM=M-1\nA=M\nM=!M\n@SP\nM=M+1\n");
}

#[test]
fn eq_text_is_exact_and_labels_advance() {
    let mut labels = LabelAllocator::new();
    let first = eq(&mut labels);
    assert_eq!(
        first,
        "//eq\n@SP\nM=M-1\nA=M\nD=M\n@SP\nM=M-1\nA=M\nD=M-D\n@EQ_TRUE0\nD;JEQ\n@SP\nA=M\nM=0\n\
         @EQ_END1\n0;JMP\n(EQ_TRUE0)\n@SP\nA=M\nM=-1\n(EQ_END1)\n@SP\nM=M+1\n"
    );
    assert_eq!(labels.peek(), 2);
    let second = gt(&mut labels);
    assert!(second.contains("@GT_TRUE2\nD;JGT\n"));
    assert!(second.contains("(GT_END3)"));
    let third = lt(&mut labels);
    assert!(third.contains("@LT_TRUE4\nD;JLT\n"));
    assert_eq!(labels.peek(), 6);
}

#[test]
fn comparison_labels_are_distinct() {
    let mut labels = LabelAllocator::new();
    let mut seen: Vec<String> = Vec::new();
    for i in 0..12 {
        let code = match i % 3 {
            0 => eq(&mut labels),
            1 => gt(&mut labels),
            _ => lt(&mut labels),
        };
        for l in code.lines().filter(|l| l.starts_with('(')) {
            seen.push(l.to_string());
        }
    }
    assert_eq!(seen.len(), 24);
    let mut sorted = seen.clone();
    sorted.sort();
    sorted.dedup();
    assert_eq!(sorted.len(), 24);
}

#[test]
fn push_text_per_segment() {
    assert_eq!(push(Segment::Constant, 7, "Main"), "//push constant 7\n@7\nD=A\n@SP\nA=M\nM=D\n@SP\nM=M+1\n");
    assert_eq!(
        push(Segment::Local, 2, "Main"),
        "//push local 2\n@2\nD=A\n@LCL\nA=M+D\nD=M\n@SP\nA=M\nM=D\n@SP\nM=M+1\n"
    );
    assert_eq!(
        push(Segment::Temp, 3, "Main"),
        "//push temp 3\n@3\nD=A\n@5\nA=A+D\nD=M\n@SP\nA=M\nM=D\n@SP\nM=M+1\n"
    );
    assert_eq!(push(Segment::Static, 4, "Foo"), "//push static 4\n@Foo.4\nD=M\n@SP\nA=M\nM=D\n@SP\nM=M+1\n");
    assert_eq!(static_name("Foo", 12), "Foo.12");
}

#[test]
fn pop_text_and_constant_refused() {
    assert_eq!(
        pop(Segment::Argument, 1, "Main"),
        Ok("//pop argument 1\n@1\nD=A\n@ARG\nD=M+D\n@R13\nM=D\n@SP\nM=M-1\nA=M\nD=M\n@R13\nA=M\nM=D\n".to_string())
    );
    assert_eq!(
        pop(Segment::Static, 0, "Main"),
        Ok("//pop static 0\n@SP\nM=M-1\nA=M\nD=M\n@Main.0\nM=D\n".to_string())
    );
    assert_eq!(pop(Segment::Constant, 0, "Main"), Err(ParseError::BadSegment));
}

#[test]
fn branching_text() {
    assert_eq!(label("LOOP"), "//label LOOP\n(LOOP)\n");
    assert_eq!(goto("LOOP"), "//goto LOOP\n@LOOP\n0;JMP\n");
    assert_eq!(if_goto("LOOP"), "//if-goto LOOP\n@SP\nAM=M-1\nD=M\n@LOOP\nD;JNE\n");
}

#[test]
fn function_and_call_text() {
    assert_eq!(
        function("Main.f", 2),
        "//function Main.f 2\n(Main.f)\n@0\nD=A\n@SP\nA=M\nM=D\n@SP\nM=M+1\n@0\nD=A\n@SP\nA=M\nM=D\n@SP\nM=M+1\n"
    );
    assert_eq!(function("Main.g", 0), "//function Main.g 0\n(Main.g)\n");
    let mut labels = LabelAllocator::new();
    let c = call("Main.main", "Main.f", 3, &mut labels);
    assert!(c.starts_with("//call Main.f 3\n@Main.main$retAddr0\nD=A\n"));
    assert!(c.contains("@5\nD=D-A\n@3\nD=D-A\n@ARG\nM=D\n"));
    assert!(c.ends_with("@Main.f\n0;JMP\n(Main.main$retAddr0)\n"));
    assert_eq!(labels.peek(), 1);
    let r = return_();
    assert!(r.starts_with("//return\n@LCL\nD=M\n@R13\nM=D\n@5\nA=D-A\nD=M\n@R14\nM=D\n"));
    assert!(r.ends_with("@R14\nA=M\n0;JMP\n"));
}

#[test]
fn return_labels_are_scoped_by_the_calling_function() {
    let out = parse_file("function Main.main 0\ncall Math.max 2\ncall Math.max 2", "Main");
    assert!(out.text.contains("(Main.main$retAddr0)"));
    assert!(out.text.contains("(Main.main$retAddr1)"));
}

#[test]
fn malformed_line_is_reported_and_skipped() {
    let out = parse_file("push constant 1\npop bogus 0\npush constant 2", "Main");
    assert_eq!(out.diagnostics, vec![Diagnostic { line: 2, error: ParseError::BadSegment }]);
    let expected = format!(
        "{}\n\n{}",
        push(Segment::Constant, 1, "Main"),
        push(Segment::Constant, 2, "Main")
    );
    assert_eq!(out.text, expected);
}

#[test]
fn each_error_kind() {
    let mut run = Translator::new("Main");
    assert_eq!(parse_line("", &mut run), Err(ParseError::Empty));
    assert_eq!(parse_line("jump", &mut run), Err(ParseError::UnknownCommand));
    assert_eq!(parse_line("push local", &mut run), Err(ParseError::MissingOperand));
    assert_eq!(parse_line("goto", &mut run), Err(ParseError::MissingOperand));
    assert_eq!(parse_line("push local x", &mut run), Err(ParseError::BadNumber));
    assert_eq!(parse_line("push local 32768", &mut run), Err(ParseError::BadNumber));
    assert_eq!(parse_line("call f -1", &mut run), Err(ParseError::BadNumber));
    assert_eq!(parse_line("pop bogus 0", &mut run), Err(ParseError::BadSegment));
    assert_eq!(parse_line("pop constant 0", &mut run), Err(ParseError::BadSegment));
    assert_eq!(run.labels.peek(), 0);
    assert!(parse_line("push constant 32767", &mut run).unwrap().contains("@32767\n"));
}

#[test]
fn parse_line_splits_on_any_white_space() {
    let mut run = Translator::new("Main");
    assert_eq!(parse_line("  push\tlocal   3 ", &mut run), Ok(push(Segment::Local, 3, "Main")));
    assert_eq!(parse_line("eq", &mut run).unwrap().contains("EQ_TRUE0"), true);
    assert_eq!(run.labels.peek(), 2);
}

#[test]
fn translating_twice_gives_the_same_text() {
    let prog = "push constant 1\npush constant 2\neq\nfunction F 1\ncall G 0\nlt\nreturn";
    let a = parse_file(prog, "Main");
    let b = parse_file(prog, "Main");
    assert_eq!(a.text, b.text);
    assert_eq!(a.diagnostics, b.diagnostics);
}

#[test]
fn empty_program_gives_empty_text() {
    let out = parse_file("", "Main");
    assert_eq!(out.text, "");
    assert!(out.diagnostics.is_empty());
}

#[test]
fn sanitize_strips_comments_and_blanks() {
    let src = "// header\n\n  push constant 7  \r\npush constant 8 // eight\n   \nadd";
    assert_eq!(sanitize(src), "push constant 7\npush constant 8\nadd\n");
    assert_eq!(sanitize(""), "");
    assert_eq!(sanitize("//only\n"), "");
}

#[test]
fn sanitize_trims_before_a_comment() {
    assert_eq!(sanitize("a //"), "a\n");
    assert_eq!(sanitize("push constant 7 \t// seven\n  //x\n"), "push constant 7\n");
    let src = "add // c\n  neg  \n\n// only\nsub\t//x";
    let once = sanitize(src);
    assert_eq!(once, "add\nneg\nsub\n");
    assert_eq!(sanitize(&once), once);
}
