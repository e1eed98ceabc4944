// Which slots may be justified, and whose turn it is to propose.
use containers::slot::{floor_sqrt, Slot};
use containers::state::State;
use containers::types::{Uint64, ValidatorIndex};

#[test]
fn distances_up_to_five_are_justifiable() {
    for delta in 0..=5u64 {
        assert!(Slot(100 + delta).is_justifiable_after(Slot(100)), "delta {}", delta);
    }
}

#[test]
fn squares_are_justifiable() {
    for delta in [9u64, 16, 25] {
        assert!(Slot(delta).is_justifiable_after(Slot(0)), "delta {}", delta);
    }
}

#[test]
fn pronic_distances_are_justifiable() {
    for delta in [2u64, 6, 12, 20] {
        assert!(Slot(3 + delta).is_justifiable_after(Slot(3)), "delta {}", delta);
    }
}

#[test]
fn seven_is_not_justifiable() {
    assert!(!Slot(7).is_justifiable_after(Slot(0)));
    assert!(!Slot(17).is_justifiable_after(Slot(10)));
}

#[test]
fn the_justifiable_distances_up_to_forty_two() {
    let expected = [0u64, 1, 2, 3, 4, 5, 6, 9, 12, 16, 20, 25, 30, 36, 42];
    let found: Vec<u64> = (0..=42u64).filter(|d| Slot(*d).is_justifiable_after(Slot(0))).collect();
    assert_eq!(found, expected);
}

#[test]
fn large_distances_are_decided_exactly() {
    // 4294967295^2, the greatest square of 64 bits
    let square = 4294967295u64 * 4294967295u64;
    assert!(Slot(square).is_justifiable_after(Slot(0)));
    assert!(!Slot(square - 1).is_justifiable_after(Slot(0)));
    assert!(!Slot(square + 1).is_justifiable_after(Slot(0)));
    // 4294967295 * 4294967296, the greatest pronic number of 64 bits
    let pronic = 4294967295u64 * 4294967296u64;
    assert!(Slot(pronic).is_justifiable_after(Slot(0)));
    assert!(!Slot(pronic - 1).is_justifiable_after(Slot(0)));
    assert!(!Slot(pronic + 1).is_justifiable_after(Slot(0)));
    assert!(!Slot(u64::MAX).is_justifiable_after(Slot(0)));
    // 2^53 + 1 is where a 64-bit float first loses an integer
    let near = 94906267u64 * 94906267u64;
    assert!(Slot(near).is_justifiable_after(Slot(0)));
    assert!(!Slot(near + 1).is_justifiable_after(Slot(0)));
    assert!(Slot(u64::MAX).is_justifiable_after(Slot(u64::MAX - 12)));
}

#[test]
fn a_slot_before_the_finalized_one_is_never_justifiable() {
    assert!(!Slot(3).is_justifiable_at(Slot(4)));
    assert!(Slot(4).is_justifiable_at(Slot(4)));
    assert!(Slot(13).is_justifiable_at(Slot(4)));
    assert!(!Slot(11).is_justifiable_at(Slot(4)));
}

#[test]
fn floor_sqrt_is_the_integer_square_root() {
    assert_eq!(floor_sqrt(0), 0);
    assert_eq!(floor_sqrt(1), 1);
    assert_eq!(floor_sqrt(3), 1);
    assert_eq!(floor_sqrt(4), 2);
    assert_eq!(floor_sqrt(24), 4);
    assert_eq!(floor_sqrt(25), 5);
    assert_eq!(floor_sqrt(u64::MAX), 4294967295);
}

#[test]
fn proposers_take_turns() {
    let mut state = State::generate_genesis(Uint64(0), Uint64(4));
    for slot in 0..12u64 {
        state.slot = Slot(slot);
        for index in 0..12u64 {
            assert_eq!(state.is_proposer(ValidatorIndex(index)), slot % 4 == index % 4);
        }
    }
}
