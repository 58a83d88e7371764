use quantum_simulator::gate::{Gate, Rule};

const ALL: [Gate; 10] = [
    Gate::X0,
    Gate::X1,
    Gate::Y0,
    Gate::Y1,
    Gate::Z0,
    Gate::Z1,
    Gate::H0,
    Gate::H1,
    Gate::Cx,
    Gate::Sw,
];

#[test]
fn every_name_is_recognized() {
    assert_eq!(Gate::recognize("x0"), Some(Gate::X0));
    assert_eq!(Gate::recognize("x1"), Some(Gate::X1));
    assert_eq!(Gate::recognize("y0"), Some(Gate::Y0));
    assert_eq!(Gate::recognize("y1"), Some(Gate::Y1));
    assert_eq!(Gate::recognize("z0"), Some(Gate::Z0));
    assert_eq!(Gate::recognize("z1"), Some(Gate::Z1));
    assert_eq!(Gate::recognize("h0"), Some(Gate::H0));
    assert_eq!(Gate::recognize("h1"), Some(Gate::H1));
    assert_eq!(Gate::recognize("cx"), Some(Gate::Cx));
    assert_eq!(Gate::recognize("sw"), Some(Gate::Sw));
}

#[test]
fn names_are_written_as_they_are_read() {
    assert_eq!(Gate::X0.name(), "x0");
    assert_eq!(Gate::X1.name(), "x1");
    assert_eq!(Gate::Y0.name(), "y0");
    assert_eq!(Gate::Y1.name(), "y1");
    assert_eq!(Gate::Z0.name(), "z0");
    assert_eq!(Gate::Z1.name(), "z1");
    assert_eq!(Gate::H0.name(), "h0");
    assert_eq!(Gate::H1.name(), "h1");
    assert_eq!(Gate::Cx.name(), "cx");
    assert_eq!(Gate::Sw.name(), "sw");
    for gate in ALL {
        assert_eq!(Gate::recognize(gate.name()), Some(gate));
    }
}

#[test]
fn other_texts_are_no_gates() {
    for text in [
        "", "x", "0", "x2", "h2", "c0", "s0", "xc", "ws", "q9", "x00", "h0h1", "cxx",
    ] {
        assert_eq!(Gate::recognize(text), None, "{:?}", text);
    }
}

#[test]
fn names_are_case_sensitive() {
    for text in ["X0", "H1", "CX", "Cx", "cX", "SW", "Sw"] {
        assert_eq!(Gate::recognize(text), None, "{:?}", text);
    }
}

#[test]
fn names_with_anything_around_them_are_no_gates() {
    for text in [" x0", "x0 ", "x0\n", "x 0", "x0,", "\tx0", "x0\r"] {
        assert_eq!(Gate::recognize(text), None, "{:?}", text);
    }
}

#[test]
fn texts_beyond_ascii_are_no_gates() {
    for text in ["é0", "x٠", "х0", "h１", "ｘ0", "🙂"] {
        assert_eq!(Gate::recognize(text), None, "{:?}", text);
    }
}

#[test]
fn rule_table() {
    assert_eq!(Gate::X0.rule(), Rule::Swap(0, 1));
    assert_eq!(Gate::X1.rule(), Rule::Swap(1, 3));
    assert_eq!(Gate::Y0.rule(), Rule::Negate(0));
    assert_eq!(Gate::Y1.rule(), Rule::Negate(1));
    assert_eq!(Gate::Z0.rule(), Rule::Negate(2));
    assert_eq!(Gate::Z1.rule(), Rule::Negate(1));
    assert_eq!(Gate::H0.rule(), Rule::Mix(0));
    assert_eq!(Gate::H1.rule(), Rule::Mix(1));
    assert_eq!(Gate::Cx.rule(), Rule::Swap(1, 3));
    assert_eq!(Gate::Sw.rule(), Rule::Swap(1, 2));
}

#[test]
fn no_rule_reaches_the_upper_cells() {
    for gate in ALL {
        match gate.rule() {
            Rule::Swap(i, j) => assert!(i < 4 && j < 4),
            Rule::Negate(i) => assert!(i < 4),
            Rule::Mix(base) => assert!(base + 2 < 4),
        }
    }
}
