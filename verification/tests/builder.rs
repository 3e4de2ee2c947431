use santa_cruz::query_builder::Argument;
use santa_cruz::query_builder::QueryBuilder;
use santa_cruz::permissions::where_read_permitted;
use santa_cruz::permissions::where_write_permitted;

fn text(s: &str) -> Argument {
    Argument::Text(s.to_string())
}

#[test]
fn update_with_bound_field_and_filter() {
    let mut qb = QueryBuilder::new("workouts");
    qb.field_with_argument("day", text("2024-01-01"));
    qb.where_eq("id", Argument::Int(5));
    let (sql, args) = qb.update_query();
    assert_eq!(sql, "UPDATE workouts SET day = $1 WHERE id = $2");
    assert_eq!(args.len(), 2);
    assert!(matches!(&args[0], Argument::Text(v) if v == "2024-01-01"));
    assert!(matches!(&args[1], Argument::Int(5)));
}

#[test]
fn select_projections_and_eq_filter() {
    let mut qb = QueryBuilder::new("exercises");
    qb.field("id");
    qb.field("name");
    qb.where_eq("id", Argument::Int(3));
    let (sql, args) = qb.select_query();
    assert_eq!(sql, "SELECT id, name FROM exercises WHERE id = $1");
    assert_eq!(args.len(), 1);
    assert!(matches!(&args[0], Argument::Int(3)));
}

#[test]
fn kth_binding_call_binds_kth_placeholder() {
    let mut qb = QueryBuilder::new("t");
    qb.field_with_argument("a", Argument::Int(10));
    qb.where_raw("x > ${index}", Argument::Int(20));
    qb.where_eq("b", Argument::Int(30));
    qb.where_any("c", Argument::IntList(vec![40, 41]));
    let (sql, args) = qb.update_query();
    assert_eq!(
        sql,
        "UPDATE t SET a = $1 WHERE x > $2 AND b = $3 AND c = ANY($4)"
    );
    assert_eq!(args.len(), 4);
    assert!(matches!(&args[0], Argument::Int(10)));
    assert!(matches!(&args[1], Argument::Int(20)));
    assert!(matches!(&args[2], Argument::Int(30)));
    assert!(matches!(&args[3], Argument::IntList(v) if v == &vec![40, 41]));
}

#[test]
fn insert_uses_only_bound_fields_in_order() {
    let mut qb = QueryBuilder::new("workouts");
    qb.field("id");
    qb.field_with_argument("status", Argument::Int(0));
    qb.field_with_argument("day", text("2024-01-01"));
    qb.where_eq("id", Argument::Int(9));
    let (sql, args) = qb.insert_query();
    assert_eq!(
        sql,
        "INSERT INTO workouts (status, day) VALUES ($1, $2) RETURNING id"
    );
    assert_eq!(args.len(), 3);
    assert!(matches!(&args[0], Argument::Int(0)));
    assert!(matches!(&args[1], Argument::Text(v) if v == "2024-01-01"));
    assert!(matches!(&args[2], Argument::Int(9)));
}

#[test]
fn select_keeps_only_projection_fields() {
    let mut qb = QueryBuilder::new("t");
    qb.field("id");
    qb.field_with_argument("status", Argument::Int(1));
    qb.field("name");
    qb.where_eq("id", Argument::Int(2));
    let (sql, _args) = qb.select_query();
    assert_eq!(sql, "SELECT id, name FROM t WHERE id = $2");
}

#[test]
fn fields_registers_projection_list() {
    let mut qb = QueryBuilder::new("workout_repeats");
    qb.fields(vec!["id", "created_at", "updated_at"]);
    qb.where_eq("id", Argument::Int(1));
    let (sql, _args) = qb.select_query();
    assert_eq!(
        sql,
        "SELECT id, created_at, updated_at FROM workout_repeats WHERE id = $1"
    );
}

#[test]
fn has_fields_reports_bindings_and_mutates_nothing() {
    let mut qb = QueryBuilder::new("t");
    qb.field("id");
    assert!(!qb.has_fields());
    assert!(!qb.has_fields());
    qb.field_with_argument("a", Argument::Int(1));
    assert!(qb.has_fields());
    assert!(qb.has_fields());
    assert!(qb.has_fields());
    qb.where_eq("id", Argument::Int(7));
    let (sql, args) = qb.update_query();

    let mut other = QueryBuilder::new("t");
    other.field("id");
    other.field_with_argument("a", Argument::Int(1));
    other.where_eq("id", Argument::Int(7));
    let (sql2, args2) = other.update_query();
    assert_eq!(sql, sql2);
    assert_eq!(sql, "UPDATE t SET a = $1 WHERE id = $2");
    assert_eq!(args.len(), args2.len());
}

#[test]
fn delete_with_filters() {
    let mut qb = QueryBuilder::new("workouts");
    qb.where_eq("id", Argument::Int(5));
    let (sql, args) = qb.delete_query();
    assert_eq!(sql, "DELETE FROM workouts WHERE id = $1");
    assert_eq!(args.len(), 1);
}

#[test]
fn where_raw_substitutes_current_position() {
    let mut qb = QueryBuilder::new("t");
    qb.field_with_argument("a", Argument::Int(1));
    qb.where_raw("day < ${index}", text("2024-02-03"));
    let (sql, _args) = qb.update_query();
    assert_eq!(sql, "UPDATE t SET a = $1 WHERE day < $2");
}

#[test]
fn where_raw_substitutes_every_token_occurrence() {
    let mut qb = QueryBuilder::new("t");
    qb.where_raw(
        "(a = ${index} OR b = ${index})",
        Argument::Int(3),
    );
    let (sql, args) = qb.delete_query();
    assert_eq!(sql, "DELETE FROM t WHERE (a = $1 OR b = $1)");
    assert_eq!(args.len(), 1);
}

#[test]
fn where_raw_without_token_keeps_template() {
    let mut qb = QueryBuilder::new("t");
    qb.where_raw("deleted_at IS NULL", Argument::Int(0));
    let (sql, args) = qb.delete_query();
    assert_eq!(sql, "DELETE FROM t WHERE deleted_at IS NULL");
    assert_eq!(args.len(), 1);
}

#[test]
fn read_predicate_applied_before_other_filters() {
    let mut qb = QueryBuilder::new("workout_repeats");
    qb.fields(vec!["id", "repeats"]);
    where_read_permitted(&mut qb, 42);
    qb.where_eq("id", Argument::Int(5));
    let (sql, args) = qb.select_query();
    assert_eq!(
        sql,
        "SELECT id, repeats FROM workout_repeats WHERE ((permissions ->> CAST($1 as text))::integer > 0 OR (permissions ->> '0')::integer > 0) AND id = $2"
    );
    assert_eq!(args.len(), 2);
    assert!(matches!(&args[0], Argument::Int(42)));
    assert!(matches!(&args[1], Argument::Int(5)));
}

#[test]
fn write_predicate_on_delete_path() {
    let mut qb = QueryBuilder::new("workouts");
    qb.where_eq("id", Argument::Int(8));
    where_write_permitted(&mut qb, 42);
    let (sql, args) = qb.delete_query();
    assert_eq!(
        sql,
        "DELETE FROM workouts WHERE id = $1 AND (permissions ->> CAST($2 as text))::integer > 1"
    );
    assert_eq!(args.len(), 2);
    assert!(matches!(&args[1], Argument::Int(42)));
}

#[test]
fn placeholder_positions_reach_double_digits() {
    let mut qb = QueryBuilder::new("t");
    let names = [
        "c1", "c2", "c3", "c4", "c5", "c6", "c7", "c8", "c9", "c10", "c11",
    ];
    for (i, name) in names.iter().enumerate() {
        qb.field_with_argument(name, Argument::Int(i as i64));
    }
    qb.where_eq("id", Argument::Int(99));
    let (sql, args) = qb.update_query();
    assert_eq!(
        sql,
        "UPDATE t SET c1 = $1, c2 = $2, c3 = $3, c4 = $4, c5 = $5, c6 = $6, c7 = $7, c8 = $8, c9 = $9, c10 = $10, c11 = $11 WHERE id = $12"
    );
    assert_eq!(args.len(), 12);
}
