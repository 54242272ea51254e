//! The query builder: the exact text it emits, and the values it refuses to put there.

use tessaridb_client::query::{
    field, Answerer, BuildError, Create, Delete, Order, Select, Update,
};
use tessaridb_client::Value;

#[test]
fn a_bare_select_projects_everything() {
    let query = Select::from("memories").build().expect("well formed");
    assert_eq!(query.script, "SELECT * FROM memories;");
    assert!(query.parameters.is_empty());
}

#[test]
fn a_select_renders_every_clause_in_order() {
    let query = Select::from("memories")
        .field("body")
        .field("weight")
        .filter(field("session").eq("abc").and(field("weight").gt(3_i64)))
        .order_by("created", Order::Descending)
        .order_by("body", Order::Ascending)
        .start(10)
        .limit(50)
        .build()
        .expect("well formed");

    assert_eq!(
        query.script,
        "SELECT body, weight FROM memories \
         WHERE (session = $p0 AND weight > $p1) \
         ORDER BY created DESC, body ASC START 10 LIMIT 50;"
    );
    assert_eq!(query.parameters.len(), 2);
    assert_eq!(
        query.parameters.get("p0"),
        Some(&Value::String("abc".to_owned()))
    );
    assert_eq!(query.parameters.get("p1"), Some(&Value::from(3_i64)));
}

#[test]
fn a_condition_tree_is_fully_parenthesised() {
    // The builder does not know the grammar's precedence — it deliberately does
    // not depend on the parser — so it may not assume how AND and OR associate.
    // Without the parentheses this statement would mean something else, and
    // would still run.
    let query = Select::from("t")
        .filter(
            field("a")
                .eq(1_i64)
                .or(field("b").eq(2_i64).and(field("c").eq(3_i64))),
        )
        .build()
        .expect("well formed");

    assert_eq!(
        query.script,
        "SELECT * FROM t WHERE (a = $p0 OR (b = $p1 AND c = $p2));"
    );
}

#[test]
fn every_comparison_has_its_own_spelling() {
    let cases = [
        (field("x").eq(1_i64), "="),
        (field("x").ne(1_i64), "!="),
        (field("x").lt(1_i64), "<"),
        (field("x").le(1_i64), "<="),
        (field("x").gt(1_i64), ">"),
        (field("x").ge(1_i64), ">="),
    ];
    assert_eq!(cases.len(), 6, "the case list lost entries");
    for (filter, spelled) in cases {
        let query = Select::from("t")
            .filter(filter)
            .build()
            .expect("well formed");
        assert_eq!(
            query.script,
            format!("SELECT * FROM t WHERE x {spelled} $p0;")
        );
    }
}

#[test]
fn a_create_binds_its_identity_and_all_its_fields() {
    let query = Create::record("memories", "note-1")
        .set("body", "the user prefers metric units")
        .set("weight", 3_i64)
        .build()
        .expect("well formed");

    // Fields render in name order, because the builder holds them in a map. That
    // makes two equal creates render equal, which is what makes this assertion
    // stable at all.
    assert_eq!(
        query.script,
        "CREATE memories:$p0 = { body: $p1, weight: $p2 };"
    );
    assert_eq!(query.parameters.len(), 3);
}

#[test]
fn the_order_of_setting_does_not_show() {
    let one = Create::in_table("t").set("a", 1_i64).set("b", 2_i64).build();
    let other = Create::in_table("t").set("b", 2_i64).set("a", 1_i64).build();
    assert_eq!(one, other);
}

#[test]
fn a_create_in_a_table_leaves_the_identity_to_the_store() {
    let query = Create::in_table("memories")
        .set("body", "the user prefers metric units")
        .set("weight", 3_i64)
        .build()
        .expect("well formed");

    // The target is the bare table, and the fields therefore number from $p0
    // rather than $p1 — there is no identity ahead of them in the binder.
    assert_eq!(
        query.script,
        "CREATE memories = { body: $p0, weight: $p1 };"
    );
    assert_eq!(query.parameters.len(), 2);
}

#[test]
fn the_generated_form_refuses_a_table_that_is_not_a_name() {
    // The named form gets its check from `record_target`, which this path does
    // not call. A generated form that skipped the check would write a caller's
    // text straight into the statement, where a table position accepts far more
    // than a table name.
    let error = Create::in_table("users; DROP")
        .set("body", 1_i64)
        .build()
        .expect_err("a table is a name");
    assert!(
        matches!(
            error,
            BuildError::NotAName {
                what: "a table",
                ..
            }
        ),
        "got {error:?}"
    );
}

#[test]
fn an_update_sets_named_fields_rather_than_replacing_the_record() {
    // The distinction is the whole reason `Update` emits SET: a builder with a
    // `set` method that quietly replaced the record would destroy every field
    // the caller did not mention, and the statement would look correct.
    let query = Update::record("memories", 7_i64)
        .set("weight", 9_i64)
        .build()
        .expect("well formed");

    assert_eq!(query.script, "UPDATE memories:$p0 SET weight = $p1;");
}

#[test]
fn a_delete_names_one_record() {
    let query = Delete::record("memories", "note-1")
        .build()
        .expect("well formed");
    assert_eq!(query.script, "DELETE memories:$p0;");
    assert_eq!(query.parameters.len(), 1);
}

#[test]
fn a_write_with_no_fields_is_refused_rather_than_rendered_empty() {
    let error = Create::record("t", 1_i64)
        .build()
        .expect_err("a create needs a field");
    assert!(
        matches!(error, BuildError::Incomplete { .. }),
        "got {error:?}"
    );

    let error = Update::record("t", 1_i64)
        .build()
        .expect_err("an update needs a field");
    assert!(
        matches!(error, BuildError::Incomplete { .. }),
        "got {error:?}"
    );
}

#[test]
fn a_name_that_is_not_a_name_is_refused_and_never_quoted() {
    // Quoting would turn a caller's mistake into a statement that runs and means
    // something else. Every position that is interpolated is checked.
    let cases = [
        ("a table", Select::from("users; DROP TABLE x").build()),
        (
            "a field in a projection",
            Select::from("t").field("a b").build(),
        ),
        (
            "a field in a condition",
            Select::from("t").filter(field("a-b").eq(1_i64)).build(),
        ),
        (
            "a field in an ordering",
            Select::from("t").order_by("1st", Order::Ascending).build(),
        ),
    ];
    assert_eq!(
        cases.len(),
        4,
        "every interpolated position must be covered"
    );
    for (what, outcome) in cases {
        match outcome {
            Err(BuildError::NotAName { .. }) => {}
            Err(other) => panic!("{what}: expected NotAName, got {other:?}"),
            Ok(query) => panic!("{what}: expected a refusal, built {:?}", query.script),
        }
    }
}

#[test]
fn a_hostile_value_stays_a_value() {
    // The string spells a statement. If any builder interpolated values, it
    // would appear in the text here.
    let hostile = "'; DROP TABLE users; --";
    let built = [
        Select::from("users")
            .filter(field("name").eq(hostile))
            .build()
            .expect("well formed"),
        Create::record("users", hostile)
            .set("name", hostile)
            .build()
            .expect("well formed"),
        Update::record("users", hostile)
            .set("name", hostile)
            .build()
            .expect("well formed"),
        Delete::record("users", hostile)
            .build()
            .expect("well formed"),
    ];
    assert_eq!(built.len(), 4, "every builder must be covered");
    for query in &built {
        assert!(
            !query.script.contains("DROP TABLE"),
            "a value reached the script text: {:?}",
            query.script
        );
        assert!(
            query
                .parameters
                .entries()
                .iter()
                .any(|(_, held)| *held == Value::String(hostile.to_owned())),
            "the value should be bound instead: {:?}",
            query.parameters
        );
    }
}

#[test]
fn a_window_onto_a_field_comes_back_under_the_field_s_name() {
    let query = Select::from("memories")
        .field_lines("body", 0, 40)
        .field("weight")
        .build()
        .expect("well formed");
    assert_eq!(
        query.script,
        "SELECT string::lines(body, 0, 40) AS body, weight FROM memories;"
    );
    let error = Select::from("memories")
        .field_lines("body)", 0, 1)
        .build()
        .expect_err("a window names a field");
    assert_eq!(
        error,
        BuildError::NotAName {
            what: "a field",
            name: "body)".to_owned()
        }
    );
}

#[test]
fn who_may_answer_comes_after_the_limit() {
    let query = Select::from("orders")
        .staleness("30s")
        .answered_by(Answerer::Leader)
        .build()
        .expect("well formed");
    assert_eq!(
        query.script,
        "SELECT * FROM orders STALENESS 30s ANSWERED BY LEADER;"
    );
    let query = Select::from("orders")
        .answered_by(Answerer::Leader)
        .staleness("1m30s")
        .limit(5)
        .build()
        .expect("well formed");
    assert_eq!(
        query.script,
        "SELECT * FROM orders LIMIT 5 STALENESS 1m30s ANSWERED BY LEADER;"
    );
}

#[test]
fn a_span_is_checked_for_its_shape_and_never_for_its_value() {
    for span in ["30s", "1m30s", "0ms", "99999999999999999999y"] {
        let query = Select::from("t").staleness(span).build().expect("a span");
        assert_eq!(query.script, format!("SELECT * FROM t STALENESS {span};"));
    }
    for other in ["", "s", "30", "30s;", "30 s", "s30", "-1s", "1.5s", "30s DROP"] {
        assert_eq!(
            Select::from("t").staleness(other).build(),
            Err(BuildError::NotASpan {
                span: other.to_owned()
            })
        );
    }
}

#[test]
fn an_answerer_is_named_by_its_word() {
    assert_eq!(Answerer::try_from("leader"), Ok(Answerer::Leader));
    assert_eq!(Answerer::try_from("LEADER"), Ok(Answerer::Leader));
    assert_eq!(
        Answerer::try_from("anyone; DROP"),
        Err(BuildError::NotAnAnswerer {
            word: "anyone; DROP".to_owned()
        })
    );
}

#[test]
fn the_first_fault_is_the_one_reported() {
    let error = Select::from("t")
        .field("ok")
        .field("not ok")
        .field("nor this")
        .order_by("1", Order::Ascending)
        .staleness("x")
        .build()
        .expect_err("three faults");
    assert_eq!(
        error,
        BuildError::NotAName {
            what: "a field",
            name: "not ok".to_owned()
        }
    );
    let error = Update::record("1t", 1_i64)
        .set("a b", 1_i64)
        .build()
        .expect_err("two faults");
    assert_eq!(
        error,
        BuildError::NotAName {
            what: "a table",
            name: "1t".to_owned()
        }
    );
}

#[test]
fn the_eleventh_value_is_held_under_its_own_name() {
    let mut create = Create::in_table("t");
    for letter in "abcdefghijkl".chars() {
        create = create.set(letter.to_string(), i64::from(u32::from(letter)));
    }
    let query = create.build().expect("well formed");
    assert_eq!(query.parameters.len(), 12);
    assert_eq!(query.parameters.get("p10"), Some(&Value::from(i64::from(b'k'))));
    assert_eq!(query.parameters.get("p2"), Some(&Value::from(i64::from(b'c'))));
    // In the order of the names, which is not the order of the numbers.
    assert_eq!(query.parameters.entries()[2].0, "p10");
}

#[test]
fn a_script_refers_to_each_value_once_and_in_order() {
    let many = |first: i64| {
        let mut filter = field("f0").eq(first);
        for at in 1..12_i64 {
            filter = filter.and(field(format!("f{at}")).gt(first + at));
        }
        Select::from("t").filter(filter).limit(5).build().expect("well formed")
    };
    let query = many(0);
    let references: Vec<&str> = query
        .script
        .split('$')
        .skip(1)
        .map(|piece| piece.split(|ch: char| !ch.is_ascii_alphanumeric()).next().unwrap_or(""))
        .collect();
    let expected: Vec<String> = (0..12).map(|at| format!("p{at}")).collect();
    assert_eq!(references, expected);
    for (at, name) in expected.iter().enumerate() {
        assert_eq!(query.parameters.get(name), Some(&Value::from(at as i64)));
    }
    assert_eq!(query.parameters.len(), 12);
    assert_eq!(many(100).script, query.script, "no value reaches the text");
}

#[test]
fn build_errors_are_told_in_words() {
    assert_eq!(
        Select::from("a b").build().expect_err("not a name").to_string(),
        "a table \"a b\" is not a name: a name is letters, digits and underscores, \
         and does not start with a digit"
    );
    assert_eq!(
        Create::in_table("t").build().expect_err("empty").to_string(),
        "a create needs at least one field"
    );
    assert_eq!(
        Update::record("t", 1_i64).build().expect_err("empty").to_string(),
        "an update needs at least one field to set"
    );
    assert!(Select::from("t")
        .staleness("\n")
        .build()
        .expect_err("not a span")
        .to_string()
        .starts_with("\"\\n\" is not a span of time"));
    assert!(Answerer::try_from("x")
        .expect_err("nobody")
        .to_string()
        .starts_with("\"x\" does not name"));
}
