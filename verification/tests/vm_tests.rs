use mc::assembler::assemble;
use mc::vm::{StepEvent, Vm, VmError, PC, PSR};

fn lines(src: &[&str]) -> Vec<Vec<u8>> {
    src.iter().map(|s| s.as_bytes().to_vec()).collect()
}

fn boot(src: &[&str], traps: usize) -> Vm {
    let img = assemble(&lines(src)).expect("assembly should succeed");
    let mut vm = Vm::new(vec![0u16; 0x10000], traps);
    vm.load_image(&img);
    vm
}

fn vm_with_words(words: &[(u16, u16)]) -> Vm {
    let mut mem = vec![0u16; 0x10000];
    for &(addr, w) in words {
        mem[addr as usize] = w;
    }
    Vm::new(mem, 0)
}

#[test]
fn fresh_machine_is_not_halted() {
    let vm = Vm::new(vec![0u16; 0x10000], 0);
    assert!(!vm.halted());
    assert_eq!(vm.get_reg(PC), 0);
    assert_eq!(vm.get_reg(PSR), 0b1110);
    assert_eq!(vm.get_reg(0), 0);
}

#[test]
fn halt_sets_the_halted_flag() {
    let mut vm = boot(&[".origin 00 00", "halt"], 0);
    assert!(!vm.halted());
    assert_eq!(vm.step(), Ok(StepEvent::Ran));
    assert!(vm.halted());
}

#[test]
fn compare_on_zero_sets_zero_bit_and_branch_is_taken() {
    // cmp on register 1 (holding 0) must set the zero condition bit,
    // and a branch testing only that bit must be taken.
    let mut vm = boot(&[".origin 00 00", "cmp 1", "brk a 05"], 0);
    assert_eq!(vm.step(), Ok(StepEvent::Ran));
    assert_eq!(vm.get_reg(PSR), 0b100);
    assert_eq!(vm.step(), Ok(StepEvent::Ran));
    // the branch stood at word 1; its displacement 5 lands at 2 + 5.
    assert_eq!(vm.get_reg(PC), 7);
}

#[test]
fn compare_sets_positive_and_negative_bits() {
    let mut vm = vm_with_words(&[(0, 0x2100), (1, 0x2200)]);
    vm.set_reg(1, 5);
    vm.set_reg(2, 0x8000);
    vm.step().unwrap();
    assert_eq!(vm.get_reg(PSR), 0b1000);
    vm.step().unwrap();
    assert_eq!(vm.get_reg(PSR), 0b010);
}

#[test]
fn branch_not_taken_falls_through() {
    // cmp leaves only the positive bit; a branch asking for the zero bit
    // is not taken and the counter simply stands past the instruction.
    let mut vm = vm_with_words(&[(0, 0x2100), (1, 0x5234)]);
    vm.set_reg(1, 7);
    vm.set_reg(3, 0x0123);
    vm.set_reg(4, 0x0321);
    vm.step().unwrap();
    vm.step().unwrap();
    assert_eq!(vm.get_reg(PC), 2);
}

#[test]
fn branch_taken_register_form_loads_counter_from_second_register() {
    // the fresh status register has every condition bit set.
    let mut vm = vm_with_words(&[(0, 0x5234)]);
    vm.set_reg(3, 0x0123);
    vm.set_reg(4, 0x0321);
    vm.step().unwrap();
    assert_eq!(vm.get_reg(PC), 0x0123);
}

#[test]
fn add_wraps_past_the_word_maximum() {
    let mut vm = boot(
        &[
            ".origin 00 00",
            "puth 1 ff",
            "putl 1 ff",
            "puth 2 00",
            "putl 2 01",
            "add 3 12",
        ],
        0,
    );
    for _ in 0..5 {
        assert_eq!(vm.step(), Ok(StepEvent::Ran));
    }
    assert_eq!(vm.get_reg(1), 0xffff);
    assert_eq!(vm.get_reg(2), 1);
    assert_eq!(vm.get_reg(3), 0);
}

#[test]
fn put_high_and_low_compose_a_word() {
    let mut vm = boot(&[".origin 00 00", "puth 5 ab", "putl 5 cd"], 0);
    vm.step().unwrap();
    assert_eq!(vm.get_reg(5), 0xab00);
    vm.step().unwrap();
    assert_eq!(vm.get_reg(5), 0xabcd);
}

#[test]
fn store_and_load_round_trip_through_memory() {
    let mut vm = boot(
        &[
            ".origin 00 00",
            "puth 1 00",
            "putl 1 80",
            "puth 2 12",
            "putl 2 34",
            "st 1 02",
            "ld 3 01",
        ],
        0,
    );
    for _ in 0..5 {
        vm.step().unwrap();
    }
    assert_eq!(vm.read_mem(0x80), 0x1234);
    vm.set_reg(1, 0x80);
    vm.step().unwrap();
    assert_eq!(vm.get_reg(3), 0x1234);
}

#[test]
fn logic_instructions_use_second_and_third_registers() {
    // and 5 12 / or 6 12 / not 7 02
    let mut vm = vm_with_words(&[(0, 0xb512), (1, 0xc612), (2, 0xa702)]);
    vm.set_reg(1, 0x0ff0);
    vm.set_reg(2, 0x00ff);
    vm.step().unwrap();
    vm.step().unwrap();
    vm.step().unwrap();
    assert_eq!(vm.get_reg(5), 0x00f0);
    assert_eq!(vm.get_reg(6), 0x0fff);
    assert_eq!(vm.get_reg(7), 0xff00);
}

#[test]
fn move_copies_third_register() {
    let mut vm = vm_with_words(&[(0, 0x9503)]);
    vm.set_reg(3, 0xbeef);
    vm.step().unwrap();
    assert_eq!(vm.get_reg(5), 0xbeef);
}

#[test]
fn shifts_take_amount_from_third_register_value() {
    // ls 4 12 / rs 5 12
    let mut vm = vm_with_words(&[(0, 0xd412), (1, 0xe412)]);
    vm.set_reg(1, 0x00f0);
    vm.set_reg(2, 4);
    vm.step().unwrap();
    assert_eq!(vm.get_reg(4), 0x0f00);
    vm.set_reg(4, 0);
    vm.step().unwrap();
    assert_eq!(vm.get_reg(4), 0x000f);
}

#[test]
fn lea_is_relative_to_the_advanced_counter() {
    let mut vm = vm_with_words(&[(0, 0x6110), (1, 0x62ff)]);
    vm.step().unwrap();
    assert_eq!(vm.get_reg(1), 0x11);
    vm.step().unwrap();
    // sign-extended -1 from the counter after the fetch.
    assert_eq!(vm.get_reg(2), 1);
}

#[test]
fn trap_reports_its_index_to_the_embedder() {
    let mut vm = boot(&[".origin 00 00", "puth 0 41", "trap 0 0"], 1);
    assert_eq!(vm.step(), Ok(StepEvent::Ran));
    assert_eq!(vm.step(), Ok(StepEvent::Trap(0)));
    // a console-write handler reads the byte from register 0's high half.
    assert_eq!((vm.get_reg(0) >> 8) as u8, 0x41);
}

#[test]
fn trap_index_beyond_the_table_is_fatal() {
    let mut vm = boot(&[".origin 00 00", "trap 0 5"], 1);
    assert_eq!(vm.step(), Err(VmError::TrapIndexOutOfBounds(5)));
}

#[test]
fn program_counter_wraps_at_the_address_space_end() {
    let mut vm = vm_with_words(&[(0xffff, 0x9503)]);
    vm.set_reg(PC, 0xffff);
    vm.step().unwrap();
    assert_eq!(vm.get_reg(PC), 0);
}

#[test]
fn later_image_overwrites_earlier_load() {
    let mut vm = Vm::new(vec![0u16; 0x10000], 0);
    vm.load_image(&vec![0x00, 0x00, 0xaa, 0xbb, 0xcc, 0xdd]);
    vm.load_image(&vec![0x00, 0x01, 0x11, 0x22]);
    assert_eq!(vm.read_mem(0), 0xaabb);
    assert_eq!(vm.read_mem(1), 0x1122);
}

#[test]
fn odd_image_payload_overwrites_only_the_high_byte() {
    let mut vm = Vm::new(vec![0u16; 0x10000], 0);
    vm.load_image(&vec![0x00, 0x00, 0xaa, 0xbb]);
    vm.load_image(&vec![0x00, 0x00, 0xcc]);
    assert_eq!(vm.read_mem(0), 0xccbb);
}

#[test]
fn console_write_scenario_delivers_the_byte() {
    // A driving loop with one console-write handler: the handler
    // receives exactly the byte 0x41.
    let img = assemble(&lines(&[".origin 00 00", "puth 0 41", "trap 0 0", "halt"]))
        .expect("assembly should succeed");
    let mut vm = Vm::new(vec![0u16; 0x10000], 1);
    vm.load_image(&img);
    let mut written: Vec<u8> = Vec::new();
    while !vm.halted() {
        match vm.step() {
            Ok(StepEvent::Ran) => {}
            Ok(StepEvent::Trap(0)) => written.push((vm.get_reg(0) >> 8) as u8),
            other => panic!("unexpected step result: {:?}", other),
        }
    }
    assert_eq!(written, vec![0x41]);
}

#[test]
fn offset_then_instruction_executes_from_its_placed_address() {
    // .offset 4 zero-fills; entering at word 5 runs the halt placed there.
    let mut vm = boot(&[".origin 00 00", "halt", ".offset 4", "puth 1 07", "halt"], 0);
    vm.set_reg(PC, 5);
    vm.step().unwrap();
    assert_eq!(vm.get_reg(1), 0x0700);
    vm.step().unwrap();
    assert!(vm.halted());
}
