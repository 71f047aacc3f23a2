use nova_scotia::field::{FieldElement, FieldParseError, PublicInputError};
use nova_scotia::shard::{Binding, Drawn, ShardError};
use nova_scotia::transcript::{
    find_fault, Column, DecodeError, LoadError, Transcript, Value, ValueError,
};

fn numbers(name: &str, from: u8, count: u8) -> Column {
    Column { name: name.to_string(), steps: (0..count).map(|i| Value::Small(from + i)).collect() }
}

fn texts(name: &str, count: usize) -> Column {
    Column {
        name: name.to_string(),
        steps: (0..count).map(|i| Value::Decimal(format!("{}", 1000 + i))).collect(),
    }
}

fn start(entries: &[&str]) -> Vec<String> {
    entries.iter().map(|s| s.to_string()).collect()
}

fn game(events: u8) -> Transcript {
    let board = Column {
        name: "board".to_string(),
        steps: (0..events)
            .map(|i| Value::List(vec![Value::List(vec![Value::Small(i), Value::Small(0)])]))
            .collect(),
    };
    let fields = vec![board, numbers("turn", 1, events), texts("root", events as usize)];
    Transcript::new(&start(&["17"]), None, fields).unwrap()
}

fn signatures(events: usize) -> Transcript {
    let seven = ["1", "2", "3", "4", "5", "6", "7"];
    Transcript::new(&start(&seven), None, vec![texts("signatures", events)]).unwrap()
}

fn run_of<'a>(binding: &Binding<'a>) -> &'a [Value] {
    match binding.drawn {
        Drawn::Run(run) => run,
        Drawn::One(_) => panic!("a single entry where a run was expected"),
    }
}

#[test]
fn transcript_needs_a_public_input() {
    let r = Transcript::new(&start(&[]), None, vec![numbers("turn", 0, 3)]);
    assert_eq!(r.err(), Some(LoadError::Decode(DecodeError::MissingPublicInput)));
}

#[test]
fn transcript_needs_even_fields() {
    let fields = vec![numbers("a", 0, 3), numbers("b", 0, 3), numbers("c", 0, 2), numbers("d", 0, 1)];
    let r = Transcript::new(&start(&["1"]), None, fields);
    assert_eq!(r.err(), Some(LoadError::Decode(DecodeError::UnevenField { index: 2 })));
}

#[test]
fn transcript_needs_a_carried_field_one_longer() {
    let r = Transcript::new(&start(&["1"]), Some(texts("step_in", 3)), vec![numbers("a", 0, 3)]);
    assert_eq!(r.err(), Some(LoadError::Decode(DecodeError::UnevenCarried)));
    let r = Transcript::new(&start(&["1"]), Some(texts("step_in", 0)), vec![]);
    assert_eq!(r.err(), Some(LoadError::Decode(DecodeError::UnevenCarried)));
    let r = Transcript::new(&start(&["1"]), Some(texts("step_in", 4)), vec![numbers("a", 0, 3)]);
    assert_eq!(r.unwrap().num_events(), 3);
    let r = Transcript::new(&start(&["1"]), Some(texts("step_in", 4)), vec![]);
    assert_eq!(r.unwrap().num_events(), 3);
}

#[test]
fn transcript_needs_a_readable_public_input() {
    let r = Transcript::new(&start(&["1", "02"]), None, vec![]);
    assert_eq!(
        r.err(),
        Some(LoadError::Field(PublicInputError { index: 1, reason: FieldParseError::Malformed }))
    );
    let order = "28948022309329048855892746252171976963363056481941647379679742748393362948097";
    let r = Transcript::new(&start(&[order]), None, vec![]);
    assert_eq!(
        r.err(),
        Some(LoadError::Field(PublicInputError { index: 0, reason: FieldParseError::OutOfRange }))
    );
}

#[test]
fn transcript_needs_distinct_names() {
    let fields = vec![numbers("a", 0, 3), numbers("b", 0, 3), numbers("a", 0, 3), numbers("b", 0, 3)];
    let r = Transcript::new(&start(&["1"]), None, fields);
    assert_eq!(r.err(), Some(LoadError::Decode(DecodeError::RepeatedName { column: 2 })));
    let fields = vec![numbers("a", 0, 3), numbers("step_in", 0, 3)];
    let r = Transcript::new(&start(&["1"]), Some(texts("step_in", 4)), fields);
    assert_eq!(r.err(), Some(LoadError::Decode(DecodeError::RepeatedName { column: 2 })));
    let fields = vec![numbers("a", 0, 3), numbers("A", 0, 3), numbers("a ", 0, 3)];
    assert!(Transcript::new(&start(&["1"]), Some(texts("", 4)), fields).is_ok());
}

#[test]
fn fault_is_that_of_the_first_bad_text() {
    let order = "28948022309329048855892746252171976963363056481941647379679742748393362948097";
    assert_eq!(find_fault(&Value::Small(200)), None);
    assert_eq!(find_fault(&Value::Decimal("200".to_string())), None);
    assert_eq!(find_fault(&Value::Decimal("0200".to_string())), Some(FieldParseError::Malformed));
    assert_eq!(find_fault(&Value::Decimal(order.to_string())), Some(FieldParseError::OutOfRange));
    assert_eq!(find_fault(&Value::List(vec![])), None);
    let nested = Value::List(vec![
        Value::Decimal("5".to_string()),
        Value::List(vec![Value::Small(1), Value::Decimal(order.to_string())]),
        Value::Decimal("x".to_string()),
    ]);
    assert_eq!(find_fault(&nested), Some(FieldParseError::OutOfRange));
    let nested = Value::List(vec![
        Value::List(vec![Value::List(vec![Value::Decimal("".to_string())])]),
        Value::Decimal(order.to_string()),
    ]);
    assert_eq!(find_fault(&nested), Some(FieldParseError::Malformed));
}

#[test]
fn transcript_needs_field_elements_in_its_columns() {
    let order = "28948022309329048855892746252171976963363056481941647379679742748393362948097";
    let mut leaf = texts("leaf", 3);
    leaf.steps[2] = Value::List(vec![Value::Decimal("7".to_string()), Value::Decimal("07".to_string())]);
    let mut root = texts("root", 3);
    root.steps[0] = Value::Decimal(order.to_string());
    let fields = vec![numbers("move", 0, 3), leaf, root];
    let r = Transcript::new(&start(&["1"]), None, fields);
    assert_eq!(
        r.err(),
        Some(LoadError::Value(ValueError { column: 1, step: 2, reason: FieldParseError::Malformed }))
    );
    let mut carried = texts("step_in", 4);
    carried.steps[3] = Value::Decimal(order.to_string());
    let r = Transcript::new(&start(&["1"]), Some(carried), vec![numbers("move", 0, 3)]);
    assert_eq!(
        r.err(),
        Some(LoadError::Value(ValueError { column: 1, step: 3, reason: FieldParseError::OutOfRange }))
    );
}

#[test]
fn transcript_names_the_first_thing_wrong() {
    let bad = || {
        let mut c = texts("b", 2);
        c.steps[0] = Value::Decimal("x".to_string());
        c
    };
    let fields = vec![numbers("a", 0, 3), bad()];
    let r = Transcript::new(&start(&[]), Some(texts("a", 9)), fields);
    assert_eq!(r.err(), Some(LoadError::Decode(DecodeError::MissingPublicInput)));
    let fields = vec![numbers("a", 0, 3), bad()];
    let r = Transcript::new(&start(&["x"]), Some(texts("a", 9)), fields);
    assert_eq!(r.err(), Some(LoadError::Decode(DecodeError::UnevenField { index: 1 })));
    let fields = vec![numbers("a", 0, 3)];
    let r = Transcript::new(&start(&["x"]), Some(texts("a", 9)), fields);
    assert_eq!(r.err(), Some(LoadError::Decode(DecodeError::UnevenCarried)));
    let fields = vec![numbers("a", 0, 2), bad()];
    let r = Transcript::new(&start(&["x"]), Some(texts("a", 3)), fields);
    assert_eq!(r.err(), Some(LoadError::Decode(DecodeError::RepeatedName { column: 2 })));
    let fields = vec![numbers("a", 0, 2), bad()];
    let r = Transcript::new(&start(&["x"]), Some(texts("c", 3)), fields);
    assert_eq!(
        r.err(),
        Some(LoadError::Field(PublicInputError { index: 0, reason: FieldParseError::Malformed }))
    );
    let fields = vec![numbers("a", 0, 2), bad()];
    let r = Transcript::new(&start(&["1"]), Some(texts("c", 3)), fields);
    assert_eq!(
        r.err(),
        Some(LoadError::Value(ValueError { column: 1, step: 0, reason: FieldParseError::Malformed }))
    );
}

#[test]
fn transcript_hands_out_what_it_was_given() {
    let t = game(4);
    assert_eq!(t.num_events(), 4);
    assert_eq!(t.num_fields(), 3);
    assert_eq!(t.field(1), &numbers("turn", 1, 4));
    assert_eq!(t.carried_field(), None);
    assert_eq!(t.public_input(), &vec![FieldElement::parse("17").unwrap()]);
    let t = Transcript::new(&start(&["1"]), None, vec![]).unwrap();
    assert_eq!(t.num_events(), 0);
    assert_eq!(t.num_fields(), 0);
}

#[test]
fn single_step_over_five_steps_gives_four_records() {
    let t = game(4);
    let out = t.shard_single();
    assert_eq!(out.records.len(), 4);
    assert_eq!(out.public_input, &vec![FieldElement::parse("17").unwrap()]);
    for (i, record) in out.records.iter().enumerate() {
        assert_eq!(record.bindings.len(), 3);
        assert_eq!(record.bindings[0].name, "board");
        assert_eq!(record.bindings[1].name, "turn");
        assert_eq!(record.bindings[2].name, "root");
        assert_eq!(
            record.bindings[0].drawn,
            Drawn::One(&Value::List(vec![Value::List(vec![
                Value::Small(i as u8),
                Value::Small(0)
            ])]))
        );
        assert_eq!(record.bindings[1].drawn, Drawn::One(&Value::Small(1 + i as u8)));
        assert_eq!(record.bindings[2].drawn, Drawn::One(&Value::Decimal(format!("{}", 1000 + i))));
    }
}

#[test]
fn single_step_leaves_the_carried_field_out() {
    let t = Transcript::new(&start(&["1000"]), Some(texts("step_in", 4)), vec![numbers("a", 0, 3)])
        .unwrap();
    let out = t.shard_single();
    assert_eq!(out.records.len(), 3);
    for record in out.records.iter() {
        assert_eq!(record.bindings.len(), 1);
        assert_eq!(record.bindings[0].name, "a");
    }
}

#[test]
fn single_step_over_step_zero_alone_gives_no_record() {
    let t = Transcript::new(&start(&["1"]), None, vec![numbers("a", 0, 0)]).unwrap();
    assert_eq!(t.shard_single().records.len(), 0);
}

#[test]
fn batched_records_hold_runs_in_order() {
    let t = signatures(300);
    let out = t.shard_batched(30, 10).unwrap();
    assert_eq!(out.records.len(), 30);
    assert_eq!(out.public_input.len(), 7);
    let mut next = 0;
    for record in out.records.iter() {
        assert_eq!(record.bindings.len(), 1);
        assert_eq!(record.bindings[0].name, "signatures");
        let run = run_of(&record.bindings[0]);
        assert_eq!(run.len(), 10);
        for value in run {
            assert_eq!(value, &Value::Decimal(format!("{}", 1000 + next)));
            next += 1;
        }
    }
    assert_eq!(next, 300);
}

#[test]
fn batched_sweep_over_three_hundred_events() {
    let t = signatures(300);
    let out = t.shard_batched(10, 30).unwrap();
    assert_eq!(out.records.len(), 10);
    assert_eq!(run_of(&out.records[9].bindings[0]).len(), 30);
    assert_eq!(run_of(&out.records[9].bindings[0])[29], Value::Decimal("1299".to_string()));
    let out = t.shard_batched(20, 15).unwrap();
    assert_eq!(out.records.len(), 20);
    assert_eq!(run_of(&out.records[1].bindings[0])[0], Value::Decimal("1015".to_string()));
}

#[test]
fn batched_refuses_more_than_the_transcript_has() {
    let t = signatures(300);
    assert_eq!(t.shard_batched(7, 50).err(), Some(ShardError::InsufficientTranscript));
    assert_eq!(t.shard_batched(301, 1).err(), Some(ShardError::InsufficientTranscript));
    assert_eq!(t.shard_batched(1, 301).err(), Some(ShardError::InsufficientTranscript));
    assert!(t.shard_batched(300, 1).is_ok());
    assert!(t.shard_batched(1, 300).is_ok());
    assert!(t.shard_batched(6, 50).is_ok());
}

#[test]
fn batched_refuses_counts_whose_product_overflows() {
    let t = signatures(8);
    assert_eq!(t.shard_batched(usize::MAX, 2).err(), Some(ShardError::InsufficientTranscript));
    assert_eq!(
        t.shard_batched(usize::MAX / 2 + 1, 2).err(),
        Some(ShardError::InsufficientTranscript)
    );
}

#[test]
fn batched_may_leave_events_over() {
    let t = signatures(10);
    let out = t.shard_batched(3, 3).unwrap();
    assert_eq!(out.records.len(), 3);
    assert_eq!(run_of(&out.records[2].bindings[0])[2], Value::Decimal("1008".to_string()));
}

#[test]
fn batched_with_nothing_to_take() {
    let t = signatures(4);
    assert_eq!(t.shard_batched(0, 5).unwrap().records.len(), 0);
    let out = t.shard_batched(5, 0).unwrap();
    assert_eq!(out.records.len(), 5);
    for record in out.records.iter() {
        assert_eq!(run_of(&record.bindings[0]).len(), 0);
    }
}

#[test]
fn carried_runs_stand_one_place_further() {
    let fields = vec![numbers("move", 0, 6), texts("leaf", 6)];
    let t = Transcript::new(&start(&["1000"]), Some(texts("step_in", 7)), fields).unwrap();
    let out = t.shard_batched(2, 3).unwrap();
    assert_eq!(out.records.len(), 2);
    for (i, record) in out.records.iter().enumerate() {
        assert_eq!(record.bindings.len(), 3);
        assert_eq!(record.bindings[0].name, "move");
        assert_eq!(record.bindings[1].name, "leaf");
        assert_eq!(record.bindings[2].name, "step_in");
        let moves = run_of(&record.bindings[0]);
        let leaves = run_of(&record.bindings[1]);
        let carried = run_of(&record.bindings[2]);
        for j in 0..3 {
            assert_eq!(moves[j], Value::Small((3 * i + j) as u8));
            assert_eq!(leaves[j], Value::Decimal(format!("{}", 1000 + 3 * i + j)));
            assert_eq!(carried[j], Value::Decimal(format!("{}", 1000 + 3 * i + j + 1)));
        }
    }
    assert_eq!(t.shard_batched(7, 1).err(), Some(ShardError::InsufficientTranscript));
    let out = t.shard_batched(6, 1).unwrap();
    assert_eq!(run_of(&out.records[5].bindings[2])[0], Value::Decimal("1006".to_string()));
}

#[test]
fn fold_input_is_looked_up_by_name() {
    let fields = vec![numbers("move", 0, 6), texts("leaf", 6)];
    let t = Transcript::new(&start(&["1000"]), Some(texts("step_in", 7)), fields).unwrap();
    let out = t.shard_batched(2, 3).unwrap();
    let record = &out.records[1];
    assert_eq!(record.get("move"), Some(record.bindings[0].drawn));
    assert_eq!(record.get("leaf"), Some(record.bindings[1].drawn));
    assert_eq!(record.get("step_in"), Some(record.bindings[2].drawn));
    assert_eq!(run_of(&record.bindings[2])[0], Value::Decimal("1004".to_string()));
    assert_eq!(record.get("Move"), None);
    assert_eq!(record.get(""), None);
    let out = t.shard_single();
    assert_eq!(out.records[4].get("move"), Some(Drawn::One(&Value::Small(4))));
    assert_eq!(out.records[4].get("step_in"), None);
}
