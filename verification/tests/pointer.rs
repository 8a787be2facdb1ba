use brainfuck_interpreter::MemoryPointer;

#[test]
fn new_pointer_is_on_the_first_cell() {
    assert_eq!(MemoryPointer::<30_000>::new().index(), 0);
    assert_eq!(MemoryPointer::<1>::new().index(), 0);
}

#[test]
fn left_of_the_first_cell_is_the_last_cell() {
    let mut pointer = MemoryPointer::<30_000>::new();
    pointer.subtract(1);
    assert_eq!(pointer.index(), 29_999);
    let mut pointer = MemoryPointer::<5>::new();
    pointer.subtract(1);
    assert_eq!(pointer.index(), 4);
}

#[test]
fn right_of_the_last_cell_is_the_first_cell() {
    let mut pointer = MemoryPointer::<30_000>::new();
    pointer.add(29_999);
    assert_eq!(pointer.index(), 29_999);
    pointer.add(1);
    assert_eq!(pointer.index(), 0);
}

#[test]
fn moves_inside_the_tape_are_plain() {
    let mut pointer = MemoryPointer::<10>::new();
    pointer.add(3);
    assert_eq!(pointer.index(), 3);
    pointer.add(4);
    assert_eq!(pointer.index(), 7);
    pointer.subtract(5);
    assert_eq!(pointer.index(), 2);
    pointer.subtract(2);
    assert_eq!(pointer.index(), 0);
    pointer.add(0);
    assert_eq!(pointer.index(), 0);
    pointer.subtract(0);
    assert_eq!(pointer.index(), 0);
}

#[test]
fn long_moves_wrap_as_often_as_needed() {
    let mut pointer = MemoryPointer::<5>::new();
    pointer.add(12);
    assert_eq!(pointer.index(), 2);
    pointer.subtract(7);
    assert_eq!(pointer.index(), 0);
    pointer.subtract(7);
    assert_eq!(pointer.index(), 3);
    pointer.subtract(13);
    assert_eq!(pointer.index(), 0);
    pointer.add(5);
    assert_eq!(pointer.index(), 0);
    pointer.subtract(5);
    assert_eq!(pointer.index(), 0);
}

#[test]
fn moves_near_the_largest_number_do_not_overflow() {
    let mut pointer = MemoryPointer::<7>::new();
    pointer.add(6);
    pointer.add(usize::MAX);
    assert_eq!(pointer.index(), (6 + usize::MAX % 7) % 7);
    pointer.subtract(usize::MAX);
    assert_eq!(pointer.index(), 6);
    pointer.subtract(usize::MAX);
    assert_eq!(pointer.index(), (6 + 7 - usize::MAX % 7) % 7);
}

#[test]
fn one_cell_tape_keeps_the_pointer_in_place() {
    let mut pointer = MemoryPointer::<1>::new();
    pointer.add(1);
    assert_eq!(pointer.index(), 0);
    pointer.subtract(1);
    assert_eq!(pointer.index(), 0);
}

#[test]
fn pointer_is_copied_by_value() {
    let mut pointer = MemoryPointer::<4>::new();
    let before = pointer;
    pointer.add(1);
    assert_eq!(before.index(), 0);
    assert_eq!(pointer.index(), 1);
}
