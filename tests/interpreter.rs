use snl::tape::{dump_bytes, Fault, Tape};
use snl::semantics::Warning;
use snl::vm::{Context, Step, Vm};

/// Runs until the program halts, answering no input; returns every step's
/// result, the final `Halt` excluded.
fn run_to_end(vm: &mut Vm) -> Vec<Result<Step, Fault>> {
    let mut out = Vec::new();
    loop {
        let r = vm.step();
        match r {
            Ok(Step::Halt) => return out,
            Err(_) => {
                out.push(r);
                return out;
            }
            _ => out.push(r),
        }
    }
}

fn cell(vm: &Vm, a: usize) -> u8 {
    vm.tape().peek(a)
}

fn printed(steps: &[Result<Step, Fault>]) -> Vec<u8> {
    let mut out = Vec::new();
    for s in steps {
        if let Ok(Step::Print(bytes)) = s {
            out.extend_from_slice(bytes);
        }
    }
    out
}

#[test]
fn digits_fill_increasing_addresses() {
    let mut vm = Vm::new("1>2>3>", false);
    run_to_end(&mut vm);
    assert_eq!(cell(&vm, 0), 1);
    assert_eq!(cell(&vm, 1), 2);
    assert_eq!(cell(&vm, 2), 3);
    assert_eq!(cell(&vm, 3), 0);
    assert_eq!(vm.tape().position(), 3);
}

#[test]
fn digits_and_left_moves() {
    let mut vm = Vm::new("1>2<7", false);
    run_to_end(&mut vm);
    assert_eq!(cell(&vm, 0), 7);
    assert_eq!(cell(&vm, 1), 2);
    assert_eq!(vm.tape().position(), 0);
}

#[test]
fn zero_loop_skipped_on_zero_cell() {
    let mut vm = Vm::new("z[5]>1", false);
    let steps = run_to_end(&mut vm);
    assert!(steps.iter().all(|s| s.is_ok()));
    assert_eq!(cell(&vm, 0), 0);
    assert_eq!(cell(&vm, 1), 1);
    assert!(vm.contexts().is_empty());
}

#[test]
fn zero_loop_runs_until_cell_is_zero() {
    let mut vm = Vm::new("9>1<z[-]", false);
    let mut body_runs = 0;
    loop {
        let at_minus = vm.current_char() == Some('-');
        match vm.step() {
            Ok(Step::Halt) => break,
            Ok(_) => {}
            Err(f) => panic!("unexpected fault {:?}", f),
        }
        if at_minus {
            body_runs += 1;
        }
    }
    assert_eq!(body_runs, 9);
    assert_eq!(cell(&vm, 0), 0);
    assert_eq!(cell(&vm, 1), 1);
    assert!(vm.contexts().is_empty());
}

#[test]
fn while_loop_mirrors_zero_loop() {
    let mut vm = Vm::new("w[1]", false);
    run_to_end(&mut vm);
    assert_eq!(cell(&vm, 0), 1);
    assert!(vm.contexts().is_empty());

    let mut vm = Vm::new("1w[5]", false);
    run_to_end(&mut vm);
    assert_eq!(cell(&vm, 0), 1);
}

#[test]
fn while_loop_repeats_while_zero() {
    // The value stack holds 5, 0, 0: the body pops 0 twice, then 5.
    let mut vm = Vm::new("5@0@0@w[#]", false);
    let mut passes = 0;
    loop {
        let at_pop = vm.current_char() == Some('#');
        match vm.step() {
            Ok(Step::Halt) => break,
            Ok(_) => {}
            Err(f) => panic!("unexpected fault {:?}", f),
        }
        if at_pop {
            passes += 1;
        }
    }
    assert_eq!(passes, 3);
    assert_eq!(cell(&vm, 0), 5);
    assert!(vm.contexts().is_empty());
}

#[test]
fn once_blocks_run_at_most_once() {
    let mut vm = Vm::new("e[5]", false);
    run_to_end(&mut vm);
    assert_eq!(cell(&vm, 0), 0);

    let mut vm = Vm::new("1e[5]", false);
    let mut max_depth = 0;
    loop {
        match vm.step() {
            Ok(Step::Halt) => break,
            _ => {}
        }
        max_depth = max_depth.max(vm.contexts().len());
    }
    assert_eq!(cell(&vm, 0), 5);
    assert_eq!(max_depth, 0);

    let mut vm = Vm::new("f[5]", false);
    run_to_end(&mut vm);
    assert_eq!(cell(&vm, 0), 5);

    let mut vm = Vm::new("1f[5]", false);
    run_to_end(&mut vm);
    assert_eq!(cell(&vm, 0), 1);
}

#[test]
fn nested_blocks_are_skipped_whole() {
    let mut vm = Vm::new("e[1w[2]3]4", false);
    run_to_end(&mut vm);
    assert_eq!(cell(&vm, 0), 4);
    assert!(vm.contexts().is_empty());
}

#[test]
fn save_then_restore_keeps_cell() {
    let mut vm = Vm::new("7@#", false);
    run_to_end(&mut vm);
    assert_eq!(cell(&vm, 0), 7);
    assert!(vm.values().is_empty());
}

#[test]
fn push_digit_pop_scenario() {
    let mut vm = Vm::new("5@0#", false);
    vm.step().unwrap();
    assert_eq!(cell(&vm, 0), 5);
    vm.step().unwrap();
    assert_eq!(vm.values(), &[5u8][..]);
    vm.step().unwrap();
    assert_eq!(cell(&vm, 0), 0);
    vm.step().unwrap();
    assert_eq!(cell(&vm, 0), 5);
    assert!(matches!(vm.step(), Ok(Step::Halt)));
}

#[test]
fn add_uses_current_and_next_cell() {
    // `+` at head 1 adds cell1 and cell2, so cell0 keeps its 3.
    let mut vm = Vm::new("3>4+", false);
    run_to_end(&mut vm);
    assert_eq!(cell(&vm, 0), 3);
    assert_eq!(cell(&vm, 1), 4);
    assert_eq!(vm.tape().position(), 1);

    let mut vm = Vm::new("3>4<+", false);
    run_to_end(&mut vm);
    assert_eq!(cell(&vm, 0), 7);
    assert_eq!(cell(&vm, 1), 4);
    assert_eq!(vm.tape().position(), 0);
}

#[test]
fn arithmetic_results() {
    let mut vm = Vm::new("9>4<-", false);
    run_to_end(&mut vm);
    assert_eq!(cell(&vm, 0), 5);

    let mut vm = Vm::new("3>4<-", false);
    run_to_end(&mut vm);
    assert_eq!(cell(&vm, 0), 255);

    let mut vm = Vm::new("9>4</", false);
    run_to_end(&mut vm);
    assert_eq!(cell(&vm, 0), 2);

    let mut vm = Vm::new("9>9<*", false);
    run_to_end(&mut vm);
    assert_eq!(cell(&vm, 0), 81);
}

#[test]
fn add_wraps_past_255() {
    let mut vm = Vm::new("0>1<-@>9<#+", false);
    run_to_end(&mut vm);
    // 255 + 9 wraps to 8
    assert_eq!(cell(&vm, 0), 8);
}

#[test]
fn multiplication_overflow_is_skipped() {
    let mut vm = Vm::new("9>9<*>9<*5", false);
    let steps = run_to_end(&mut vm);
    let warnings: Vec<&Result<Step, Fault>> =
        steps.iter().filter(|s| matches!(s, Ok(Step::Warn(_)))).collect();
    assert_eq!(warnings.len(), 1);
    assert!(matches!(warnings[0], Ok(Step::Warn(Warning::MulOverflow(81, 9)))));
    assert_eq!(cell(&vm, 0), 5);
}

#[test]
fn divide_by_zero_is_fatal() {
    let mut vm = Vm::new("8/5", false);
    let steps = run_to_end(&mut vm);
    assert!(matches!(steps.last(), Some(Err(Fault::DivideByZero))));
    assert_eq!(cell(&vm, 0), 8);
}

#[test]
fn unknown_character_warns_and_continues() {
    let mut vm = Vm::new("5&3", false);
    let steps = run_to_end(&mut vm);
    let warnings: Vec<&Result<Step, Fault>> =
        steps.iter().filter(|s| matches!(s, Ok(Step::Warn(_)))).collect();
    assert_eq!(warnings.len(), 1);
    assert!(matches!(warnings[0], Ok(Step::Warn(Warning::UnknownOpcode('&')))));
    assert_eq!(cell(&vm, 0), 3);
}

#[test]
fn missing_bracket_makes_letter_a_no_op() {
    let mut vm = Vm::new("z5", false);
    let first = vm.step();
    assert!(matches!(first, Ok(Step::Warn(Warning::MissingBracket('z')))));
    assert_eq!(vm.char_ptr(), 1);
    run_to_end(&mut vm);
    assert_eq!(cell(&vm, 0), 5);
    assert!(vm.contexts().is_empty());
}

#[test]
fn stray_closing_bracket_is_no_op() {
    let mut vm = Vm::new("]4[", false);
    let steps = run_to_end(&mut vm);
    assert!(steps.iter().all(|s| matches!(s, Ok(Step::Ran))));
    assert_eq!(cell(&vm, 0), 4);
}

#[test]
fn restore_from_empty_stack_is_no_op() {
    let mut vm = Vm::new("6#", false);
    run_to_end(&mut vm);
    assert_eq!(cell(&vm, 0), 6);
}

#[test]
fn left_at_zero_is_underflow() {
    let mut vm = Vm::new("<5", false);
    assert!(matches!(vm.step(), Err(Fault::AddressUnderflow)));
    assert_eq!(vm.tape().position(), 0);
    assert_eq!(cell(&vm, 0), 0);
}

#[test]
fn print_number_in_decimal() {
    let mut vm = Vm::new("9>9<*n>n<0n", false);
    let steps = run_to_end(&mut vm);
    assert_eq!(printed(&steps), b"8190".to_vec());
}

#[test]
fn print_character() {
    let mut vm = Vm::new("o", false);
    let steps = run_to_end(&mut vm);
    assert_eq!(printed(&steps), vec![0u8]);
}

#[test]
fn read_line_then_print_string() {
    let mut vm = Vm::new("sp", false);
    assert!(matches!(vm.step(), Ok(Step::ReadLine)));
    vm.input_line(b"Hi!").unwrap();
    assert_eq!(vm.tape().position(), 0);
    assert_eq!(cell(&vm, 0), b'H');
    assert_eq!(cell(&vm, 2), b'!');
    assert_eq!(cell(&vm, 3), 0);
    let steps = run_to_end(&mut vm);
    assert_eq!(printed(&steps), b"Hi!".to_vec());
    assert_eq!(vm.tape().position(), 0);
}

#[test]
fn read_number_input() {
    let mut vm = Vm::new("c", false);
    assert!(matches!(vm.step(), Ok(Step::ReadNumber)));
    assert_eq!(vm.input_number(b"200"), Ok(()));
    assert_eq!(cell(&vm, 0), 200);
    assert_eq!(vm.input_number(b"+7"), Ok(()));
    assert_eq!(cell(&vm, 0), 7);
    assert_eq!(vm.input_number(b"007"), Ok(()));
    assert_eq!(cell(&vm, 0), 7);
    assert_eq!(vm.input_number(b"256"), Err(Fault::BadNumber));
    assert_eq!(vm.input_number(b""), Err(Fault::BadNumber));
    assert_eq!(vm.input_number(b"+"), Err(Fault::BadNumber));
    assert_eq!(vm.input_number(b"-1"), Err(Fault::BadNumber));
    assert_eq!(vm.input_number(b"1a"), Err(Fault::BadNumber));
    assert_eq!(vm.input_number(b"99999"), Err(Fault::BadNumber));
    assert_eq!(cell(&vm, 0), 7);
}

#[test]
fn read_char_input() {
    let mut vm = Vm::new("i", false);
    assert!(matches!(vm.step(), Ok(Step::ReadChar)));
    assert_eq!(vm.input_char("A"), Ok(()));
    assert_eq!(cell(&vm, 0), 65);
    assert_eq!(vm.input_char("\u{e9}"), Ok(()));
    assert_eq!(cell(&vm, 0), 0xe9);
    assert_eq!(vm.input_char("\u{141}"), Ok(()));
    assert_eq!(cell(&vm, 0), 0x41);
    assert_eq!(vm.input_char(""), Err(Fault::BadChar));
    assert_eq!(vm.input_char("ab"), Err(Fault::BadChar));
    assert_eq!(cell(&vm, 0), 0x41);
}

#[test]
fn program_counter_moves() {
    let mut vm = Vm::new("ab", true);
    assert!(vm.debug_mode());
    assert_eq!(vm.current_char(), Some('a'));
    assert_eq!(vm.next_char(), Some('a'));
    assert_eq!(vm.char_ptr(), 1);
    assert_eq!(vm.next_char(), Some('b'));
    assert!(vm.at_eof());
    assert_eq!(vm.next_char(), None);
    assert_eq!(vm.char_ptr(), 3);
    vm.seek_char(2);
    assert_eq!(vm.next_char(), None);
    assert_eq!(vm.char_ptr(), 3);
    vm.seek_char(10);
    assert_eq!(vm.current_char(), None);
    assert!(vm.at_eof());
    vm.seek_char(0);
    assert!(!vm.at_eof());
    assert_eq!(vm.source(), &['a', 'b'][..]);
}

#[test]
fn empty_program_reads_nothing() {
    let mut vm = Vm::new("", false);
    assert_eq!(vm.next_char(), None);
    assert_eq!(vm.char_ptr(), 1);
    assert!(matches!(vm.step(), Ok(Step::Halt)));
}

#[test]
fn unmatched_block_skip_ends_past_the_end() {
    let mut vm = Vm::new("z[12", false);
    assert!(matches!(vm.step(), Ok(Step::Ran)));
    assert_eq!(vm.char_ptr(), 5);
    assert!(matches!(vm.step(), Ok(Step::Halt)));
    assert_eq!(cell(&vm, 0), 0);
}

#[test]
fn default_tape_is_empty() {
    let t = Tape::default();
    assert_eq!(t.position(), 0);
    assert_eq!(t.read(), 0);
    assert_eq!(t.last_written(), None);
}

#[test]
fn tape_basics() {
    let mut t = Tape::new();
    assert_eq!(t.read(), 0);
    t.write(4);
    t.right();
    assert_eq!(t.read(), 0);
    t.write(9);
    assert_eq!(t.left(), Ok(()));
    assert_eq!(t.read(), 4);
    assert_eq!(t.left(), Err(Fault::AddressUnderflow));
    assert_eq!(t.position(), 0);
    assert_eq!(t.peek(1), 9);
    t.poke(5, 2);
    assert_eq!(t.peek(5), 2);
    assert_eq!(t.position(), 0);
}

#[test]
fn loop_context_records_body_start() {
    let mut vm = Vm::new("1z[0]", false);
    vm.step().unwrap();
    vm.step().unwrap();
    assert_eq!(vm.contexts(), &[Context::Zero(3)][..]);
    assert_eq!(vm.char_ptr(), 3);
    let mut vm = Vm::new("w[1]", false);
    vm.step().unwrap();
    assert_eq!(vm.contexts(), &[Context::While(2)][..]);
}

#[test]
fn tape_dump_columns() {
    let mut t = Tape::new();
    assert!(t.dump().is_empty());
    t.write(b'A');
    t.poke(2, 10);
    let text: String = t.dump().into_iter().collect();
    assert_eq!(text, "A |   0A| ");
    t.poke(1, 0x7f);
    let text: String = t.dump().into_iter().collect();
    assert_eq!(text, "A |7F|0A| ");
}

#[test]
fn value_dump_columns() {
    let text: String = dump_bytes(&[b'x', 0, 200]).into_iter().collect();
    assert_eq!(text, "x |00|\u{c8} |");
    assert!(dump_bytes(&[]).is_empty());
}
