use intcode::errors::VmError;
use intcode::memory::Memory;
use intcode::modes::ArgumentModes;
use intcode::calculator::oracle_checked;
use intcode::wires::{Directions, Move, Pos, Wire};

#[test]
fn memory_load_read_write() {
    let mut mem = Memory::load(vec![10, 20, 30]);
    assert_eq!(3, mem.len());
    assert_eq!(Ok(20), mem.read(1));
    assert_eq!(Err(VmError::UndefinedAddress), mem.read(3));
    assert_eq!(Ok(()), mem.write(2, -7));
    assert_eq!(Ok(-7), mem.read(2));
    assert_eq!(Err(VmError::UndefinedAddress), mem.write(3, 1));
}

#[test]
fn get_value_resolves_through_modes() {
    // Word 1002 gives parameter modes position, immediate, position.
    let modes = ArgumentModes::new(1002);
    let mem = Memory::load(vec![1002, 4, 3, 4, 33]);
    // Position mode: cell 1 holds address 4, whose cell holds 33.
    assert_eq!(Ok(33), modes.get_value(0, 1, &mem));
    // Immediate mode: cell 2 holds the operand 3 itself.
    assert_eq!(Ok(3), modes.get_value(1, 2, &mem));
    // Position mode reads past the store fail.
    let far = Memory::load(vec![0, 9]);
    let m0 = ArgumentModes::new(2);
    assert_eq!(Err(VmError::UndefinedAddress), m0.get_value(0, 1, &far));
    // A mode digit past one is invalid.
    let bad = ArgumentModes::new(202);
    assert_eq!(Err(VmError::InvalidParameterMode), bad.get_value(0, 1, &mem));
}

#[test]
fn wire_is_built_from_moves() {
    assert_eq!(Pos { x: 0, y: 0 }, Pos::start());

    let mut wire = Wire::new();
    assert!(wire.contains_pos(&Pos::start()));
    assert!(!wire.contains_pos(&Pos { x: 1, y: 0 }));

    wire.apply_moves(vec![
        Move {
            direction: Directions::R,
            steps: 2,
        },
        Move {
            direction: Directions::U,
            steps: 1,
        },
    ]);
    assert!(wire.contains_pos(&Pos { x: 2, y: 1 }));
    assert_eq!(3, wire.get_min_steps(&Pos { x: 2, y: 1 }));

    let same = Wire::new_from_route(vec![
        Move {
            direction: Directions::R,
            steps: 2,
        },
        Move {
            direction: Directions::U,
            steps: 1,
        },
    ]);
    assert_eq!(3, same.get_min_steps(&Pos { x: 2, y: 1 }));
}

#[test]
fn oracle_checked_reports_a_missing_pair() {
    // No noun and verb can leave 1000 in cell zero here.
    assert_eq!(None, oracle_checked(1000, &vec![1, 0, 0, 0, 99]));
    // Too short to hold a noun and a verb at all.
    assert_eq!(None, oracle_checked(2, &vec![99]));
}
