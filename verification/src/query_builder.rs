//! A statement builder that assembles INSERT/UPDATE/SELECT/DELETE statements
//! with positional parameters (`$1`, `$2`, ...) from an ordered sequence of
//! field and filter registrations.
//!
//! Each binding registration records its field or predicate at the current
//! placeholder position, appends the bound value to the argument list, and
//! advances the position, so the k-th binding call always binds `$k`. The
//! terminal methods consume the builder and compile it into a SQL string and
//! the ordered argument list.

use vstd::prelude::*;
use vstd::string::StrSliceExecFns;
use vstd::string::StringExecFns;

use crate::permissions::PermissionMap;
use crate::text::join_strings;
use crate::text::lemma_views_of_push;
use crate::text::push_dec;
use crate::text::spec_dec;
use crate::text::spec_join;
use crate::text::subst_index;
use crate::text::substitute_index;
use crate::text::views_of;

verus! {

/// A plain value bound to a positional placeholder. The builder carries the
/// values alongside the SQL text; executing the statement is the caller's
/// business.
pub enum Argument {
    Int(i64),
    Text(String),
    IntList(Vec<i64>),
    Permissions(PermissionMap),
}

/// The mathematical value of one bound argument.
pub ghost enum ArgumentModel {
    Int(int),
    Text(Seq<char>),
    IntList(Seq<int>),
    Permissions(Map<int, int>),
}

impl View for Argument {
    type V = ArgumentModel;

    open spec fn view(&self) -> ArgumentModel {
        match self {
            Argument::Int(v) => ArgumentModel::Int(*v as int),
            Argument::Text(s) => ArgumentModel::Text(s@),
            Argument::IntList(v) => ArgumentModel::IntList(
                v@.map_values(|x: i64| x as int),
            ),
            Argument::Permissions(m) => ArgumentModel::Permissions(m@),
        }
    }
}

/// One registered column or filter. For a projection-only column the
/// position is 0 and the text is the column name; for a bound field the
/// position is its 1-based placeholder index; for a filter the text is the
/// full rendered predicate.
pub struct Field {
    value: String,
    position: usize,
}

/// The mathematical value of one registered field or filter.
#[verifier::ext_equal]
pub ghost struct FieldModel {
    pub name: Seq<char>,
    pub position: int,
}

impl View for Field {
    type V = FieldModel;

    closed spec fn view(&self) -> FieldModel {
        FieldModel { name: self.value@, position: self.position as int }
    }
}

/// The views of a sequence of fields.
pub open spec fn fields_view(s: Seq<Field>) -> Seq<FieldModel> {
    s.map_values(|f: Field| f@)
}

/// The views of a sequence of arguments.
pub open spec fn args_view(s: Seq<Argument>) -> Seq<ArgumentModel> {
    s.map_values(|a: Argument| a@)
}

/// The abstract state of a builder: the target table, the next placeholder
/// position, the registered fields and filters in registration order, and
/// the bound values in binding order.
#[verifier::ext_equal]
pub ghost struct BuilderModel {
    pub table: Seq<char>,
    pub pointer: int,
    pub fields: Seq<FieldModel>,
    pub filters: Seq<FieldModel>,
    pub arguments: Seq<ArgumentModel>,
}

impl BuilderModel {
    /// The builder's bookkeeping invariant: the next position is one past
    /// the number of bound arguments, every registered position is in range,
    /// and bound positions grow in registration order.
    pub open spec fn wf(self) -> bool {
        &&& self.pointer >= 1
        &&& self.arguments.len() == self.pointer - 1
        &&& forall|i: int|
            0 <= i < self.fields.len() ==> 0 <= #[trigger] self.fields[i].position < self.pointer
        &&& forall|i: int|
            0 <= i < self.filters.len() ==> 1 <= #[trigger] self.filters[i].position
                < self.pointer
        &&& forall|i: int, j: int|
            0 <= i < j < self.fields.len() && #[trigger] self.fields[i].position > 0
                && #[trigger] self.fields[j].position > 0 ==> self.fields[i].position
                < self.fields[j].position
        &&& forall|i: int, j: int|
            0 <= i < j < self.filters.len() ==> #[trigger] self.filters[i].position
                < #[trigger] self.filters[j].position
    }
}

/// The fresh builder state for a table.
pub open spec fn spec_new_builder(table: Seq<char>) -> BuilderModel {
    BuilderModel {
        table,
        pointer: 1,
        fields: Seq::empty(),
        filters: Seq::empty(),
        arguments: Seq::empty(),
    }
}

/// Registering a projection-only column: position 0, no argument consumed.
pub open spec fn spec_field(b: BuilderModel, name: Seq<char>) -> BuilderModel {
    BuilderModel {
        table: b.table,
        pointer: b.pointer,
        fields: b.fields.push(FieldModel { name, position: 0 }),
        filters: b.filters,
        arguments: b.arguments,
    }
}

/// Registering a bound field at the current position.
pub open spec fn spec_field_with_argument(
    b: BuilderModel,
    name: Seq<char>,
    value: ArgumentModel,
) -> BuilderModel {
    BuilderModel {
        table: b.table,
        pointer: b.pointer + 1,
        fields: b.fields.push(FieldModel { name, position: b.pointer }),
        filters: b.filters,
        arguments: b.arguments.push(value),
    }
}

/// The rendered text of an equality filter.
pub open spec fn eq_filter_text(name: Seq<char>, position: int) -> Seq<char> {
    name + " = $"@ + spec_dec(position)
}

/// The rendered text of a set-membership filter.
pub open spec fn any_filter_text(name: Seq<char>, position: int) -> Seq<char> {
    name + " = ANY($"@ + spec_dec(position) + ")"@
}

/// Registering a filter with an already rendered predicate text at the
/// current position.
pub open spec fn spec_filter(
    b: BuilderModel,
    text: Seq<char>,
    value: ArgumentModel,
) -> BuilderModel {
    BuilderModel {
        table: b.table,
        pointer: b.pointer + 1,
        fields: b.fields,
        filters: b.filters.push(FieldModel { name: text, position: b.pointer }),
        arguments: b.arguments.push(value),
    }
}

/// Registering a raw filter: each occurrence of the template's placeholder
/// token is replaced by the current position.
pub open spec fn spec_where_raw(
    b: BuilderModel,
    template: Seq<char>,
    value: ArgumentModel,
) -> BuilderModel {
    spec_filter(b, subst_index(template, b.pointer), value)
}

/// Registering an equality filter at the current position.
pub open spec fn spec_where_eq(
    b: BuilderModel,
    name: Seq<char>,
    value: ArgumentModel,
) -> BuilderModel {
    spec_filter(b, eq_filter_text(name, b.pointer), value)
}

/// Registering a set-membership filter at the current position.
pub open spec fn spec_where_any(
    b: BuilderModel,
    name: Seq<char>,
    value: ArgumentModel,
) -> BuilderModel {
    spec_filter(b, any_filter_text(name, b.pointer), value)
}

/// One binding registration, as an abstract operation: a bound field or one
/// of the three filter forms, each carrying its bound value. Projection-only
/// `field` registrations are not binding operations; their contracts show
/// they leave the position and the argument list untouched.
pub ghost enum BindOp {
    FieldArg { name: Seq<char>, value: ArgumentModel },
    RawFilter { template: Seq<char>, value: ArgumentModel },
    EqFilter { name: Seq<char>, value: ArgumentModel },
    AnyFilter { name: Seq<char>, value: ArgumentModel },
}

/// The value a binding operation appends to the argument list.
pub open spec fn bind_value(op: BindOp) -> ArgumentModel {
    match op {
        BindOp::FieldArg { name: _, value } => value,
        BindOp::RawFilter { template: _, value } => value,
        BindOp::EqFilter { name: _, value } => value,
        BindOp::AnyFilter { name: _, value } => value,
    }
}

/// The state transition of one binding operation, as the corresponding
/// builder method's contract states it.
pub open spec fn apply_bind(b: BuilderModel, op: BindOp) -> BuilderModel {
    match op {
        BindOp::FieldArg { name, value } => spec_field_with_argument(b, name, value),
        BindOp::RawFilter { template, value } => spec_where_raw(b, template, value),
        BindOp::EqFilter { name, value } => spec_where_eq(b, name, value),
        BindOp::AnyFilter { name, value } => spec_where_any(b, name, value),
    }
}

/// The state after a sequence of binding operations, applied in order.
pub open spec fn apply_binds(b: BuilderModel, ops: Seq<BindOp>) -> BuilderModel
    decreases ops.len(),
{
    if ops.len() == 0 {
        b
    } else {
        apply_binds(apply_bind(b, ops[0]), ops.drop_first())
    }
}

/// A sequence of binding operations advances the position by exactly its
/// length and appends exactly the operations' values, in order.
pub proof fn lemma_apply_binds_effect(b: BuilderModel, ops: Seq<BindOp>)
    ensures
        apply_binds(b, ops).pointer == b.pointer + ops.len(),
        apply_binds(b, ops).arguments =~= b.arguments + ops.map_values(
            |op: BindOp| bind_value(op),
        ),
    decreases ops.len(),
{
    if ops.len() == 0 {
        assert(b.arguments + ops.map_values(|op: BindOp| bind_value(op)) =~= b.arguments);
    } else {
        lemma_apply_binds_effect(apply_bind(b, ops[0]), ops.drop_first());
        assert(apply_bind(b, ops[0]).arguments =~= b.arguments.push(bind_value(ops[0])));
        assert(b.arguments.push(bind_value(ops[0])) + ops.drop_first().map_values(
            |op: BindOp| bind_value(op),
        ) =~= b.arguments + ops.map_values(|op: BindOp| bind_value(op)));
    }
}

proof fn lemma_apply_binds_snoc(b: BuilderModel, ops: Seq<BindOp>)
    requires
        ops.len() > 0,
    ensures
        apply_binds(b, ops) == apply_bind(apply_binds(b, ops.drop_last()), ops.last()),
    decreases ops.len(),
{
    reveal_with_fuel(apply_binds, 3);
    if ops.len() == 1 {
        assert(ops.drop_first() =~= Seq::<BindOp>::empty());
        assert(ops.drop_last() =~= Seq::<BindOp>::empty());
        assert(apply_binds(b, ops) == apply_binds(apply_bind(b, ops[0]), ops.drop_first()));
    } else {
        let b1 = apply_bind(b, ops[0]);
        lemma_apply_binds_snoc(b1, ops.drop_first());
        assert(ops.drop_first().drop_last() =~= ops.drop_last().drop_first());
        assert(ops.drop_first().last() == ops.last());
        assert(ops.drop_last()[0] == ops[0]);
    }
}

/// For any sequence of binding calls on a fresh builder, the k-th call
/// (1-based) finds the next placeholder position equal to k, so it binds
/// `$k`, and afterwards the argument list holds exactly k values, with that
/// call's value at index k - 1.
pub proof fn lemma_kth_bind(table: Seq<char>, ops: Seq<BindOp>, k: int)
    requires
        1 <= k <= ops.len(),
    ensures
        ({
            let before = apply_binds(spec_new_builder(table), ops.take(k - 1));
            let after = apply_binds(spec_new_builder(table), ops.take(k));
            &&& before.pointer == k
            &&& after == apply_bind(before, ops[k - 1])
            &&& after.arguments.len() == k
            &&& after.arguments[k - 1] == bind_value(ops[k - 1])
        }),
{
    let b0 = spec_new_builder(table);
    let before = apply_binds(b0, ops.take(k - 1));
    let after = apply_binds(b0, ops.take(k));
    lemma_apply_binds_effect(b0, ops.take(k - 1));
    lemma_apply_binds_effect(b0, ops.take(k));
    assert(ops.take(k).drop_last() =~= ops.take(k - 1));
    assert(ops.take(k).last() == ops[k - 1]);
    lemma_apply_binds_snoc(b0, ops.take(k));
    assert(after.arguments =~= b0.arguments + ops.take(k).map_values(
        |op: BindOp| bind_value(op),
    ));
    assert(ops.take(k).map_values(|op: BindOp| bind_value(op))[k - 1] == bind_value(ops[k - 1]));
}

/// The names of the bound fields (position > 0), in registration order.
pub open spec fn bound_names(fs: Seq<FieldModel>) -> Seq<Seq<char>>
    decreases fs.len(),
{
    if fs.len() == 0 {
        Seq::empty()
    } else if fs[0].position > 0 {
        seq![fs[0].name] + bound_names(fs.drop_first())
    } else {
        bound_names(fs.drop_first())
    }
}

/// The `$position` placeholders of the bound fields, in registration order.
pub open spec fn bound_placeholders(fs: Seq<FieldModel>) -> Seq<Seq<char>>
    decreases fs.len(),
{
    if fs.len() == 0 {
        Seq::empty()
    } else if fs[0].position > 0 {
        seq!["$"@ + spec_dec(fs[0].position)] + bound_placeholders(fs.drop_first())
    } else {
        bound_placeholders(fs.drop_first())
    }
}

/// The `name = $position` fragments of the bound fields, in registration
/// order.
pub open spec fn bound_set_fragments(fs: Seq<FieldModel>) -> Seq<Seq<char>>
    decreases fs.len(),
{
    if fs.len() == 0 {
        Seq::empty()
    } else if fs[0].position > 0 {
        seq![eq_filter_text(fs[0].name, fs[0].position)] + bound_set_fragments(fs.drop_first())
    } else {
        bound_set_fragments(fs.drop_first())
    }
}

/// The names of the projection-only fields (position 0), in registration
/// order.
pub open spec fn projection_names(fs: Seq<FieldModel>) -> Seq<Seq<char>>
    decreases fs.len(),
{
    if fs.len() == 0 {
        Seq::empty()
    } else if fs[0].position == 0 {
        seq![fs[0].name] + projection_names(fs.drop_first())
    } else {
        projection_names(fs.drop_first())
    }
}

/// The rendered texts of the filters, in registration order.
pub open spec fn filter_texts(fs: Seq<FieldModel>) -> Seq<Seq<char>> {
    fs.map_values(|f: FieldModel| f.name)
}

/// The WHERE clause body: the filters joined by AND, in registration order.
pub open spec fn spec_where_clause(filters: Seq<FieldModel>) -> Seq<char> {
    spec_join(filter_texts(filters), " AND "@)
}

/// The INSERT statement a builder compiles to: exactly the bound fields, in
/// registration order, and no filter clauses.
pub open spec fn spec_insert_sql(b: BuilderModel) -> Seq<char> {
    "INSERT INTO "@ + b.table + " ("@ + spec_join(bound_names(b.fields), ", "@)
        + ") VALUES ("@ + spec_join(bound_placeholders(b.fields), ", "@) + ") RETURNING id"@
}

/// The UPDATE statement a builder compiles to: the bound fields as the SET
/// list and all filters as the WHERE conjunction.
pub open spec fn spec_update_sql(b: BuilderModel) -> Seq<char> {
    "UPDATE "@ + b.table + " SET "@ + spec_join(bound_set_fragments(b.fields), ", "@)
        + " WHERE "@ + spec_where_clause(b.filters)
}

/// The SELECT statement a builder compiles to: exactly the projection-only
/// fields, in registration order, and all filters as the WHERE conjunction.
pub open spec fn spec_select_sql(b: BuilderModel) -> Seq<char> {
    "SELECT "@ + spec_join(projection_names(b.fields), ", "@) + " FROM "@ + b.table
        + " WHERE "@ + spec_where_clause(b.filters)
}

/// The DELETE statement a builder compiles to.
pub open spec fn spec_delete_sql(b: BuilderModel) -> Seq<char> {
    "DELETE FROM "@ + b.table + " WHERE "@ + spec_where_clause(b.filters)
}

/// An INSERT statement never includes filter clauses: two builders that
/// agree on the table and the registered fields compile to the same INSERT
/// text, whatever filters either one holds.
pub proof fn lemma_insert_sql_ignores_filters(a: BuilderModel, b: BuilderModel)
    requires
        a.table == b.table,
        a.fields == b.fields,
    ensures
        spec_insert_sql(a) == spec_insert_sql(b),
{
}

proof fn lemma_bound_names_push(fs: Seq<FieldModel>, f: FieldModel)
    ensures
        bound_names(fs.push(f)) =~= bound_names(fs) + (if f.position > 0 {
            seq![f.name]
        } else {
            Seq::<Seq<char>>::empty()
        }),
    decreases fs.len(),
{
    reveal_with_fuel(bound_names, 3);
    if fs.len() == 0 {
        assert(fs.push(f).drop_first() =~= Seq::<FieldModel>::empty());
        assert(fs.push(f)[0] == f);
        assert(bound_names(fs) == Seq::<Seq<char>>::empty());
    } else {
        assert(fs.push(f).drop_first() =~= fs.drop_first().push(f));
        assert(fs.push(f)[0] == fs[0]);
        lemma_bound_names_push(fs.drop_first(), f);
    }
}

proof fn lemma_bound_placeholders_push(fs: Seq<FieldModel>, f: FieldModel)
    ensures
        bound_placeholders(fs.push(f)) =~= bound_placeholders(fs) + (if f.position > 0 {
            seq!["$"@ + spec_dec(f.position)]
        } else {
            Seq::<Seq<char>>::empty()
        }),
    decreases fs.len(),
{
    reveal_with_fuel(bound_placeholders, 3);
    if fs.len() == 0 {
        assert(fs.push(f).drop_first() =~= Seq::<FieldModel>::empty());
        assert(fs.push(f)[0] == f);
        assert(bound_placeholders(fs) == Seq::<Seq<char>>::empty());
    } else {
        assert(fs.push(f).drop_first() =~= fs.drop_first().push(f));
        assert(fs.push(f)[0] == fs[0]);
        lemma_bound_placeholders_push(fs.drop_first(), f);
    }
}

proof fn lemma_bound_set_fragments_push(fs: Seq<FieldModel>, f: FieldModel)
    ensures
        bound_set_fragments(fs.push(f)) =~= bound_set_fragments(fs) + (if f.position > 0 {
            seq![eq_filter_text(f.name, f.position)]
        } else {
            Seq::<Seq<char>>::empty()
        }),
    decreases fs.len(),
{
    reveal_with_fuel(bound_set_fragments, 3);
    if fs.len() == 0 {
        assert(fs.push(f).drop_first() =~= Seq::<FieldModel>::empty());
        assert(fs.push(f)[0] == f);
        assert(bound_set_fragments(fs) == Seq::<Seq<char>>::empty());
    } else {
        assert(fs.push(f).drop_first() =~= fs.drop_first().push(f));
        assert(fs.push(f)[0] == fs[0]);
        lemma_bound_set_fragments_push(fs.drop_first(), f);
    }
}

proof fn lemma_projection_names_push(fs: Seq<FieldModel>, f: FieldModel)
    ensures
        projection_names(fs.push(f)) =~= projection_names(fs) + (if f.position == 0 {
            seq![f.name]
        } else {
            Seq::<Seq<char>>::empty()
        }),
    decreases fs.len(),
{
    reveal_with_fuel(projection_names, 3);
    if fs.len() == 0 {
        assert(fs.push(f).drop_first() =~= Seq::<FieldModel>::empty());
        assert(fs.push(f)[0] == f);
        assert(projection_names(fs) == Seq::<Seq<char>>::empty());
    } else {
        assert(fs.push(f).drop_first() =~= fs.drop_first().push(f));
        assert(fs.push(f)[0] == fs[0]);
        lemma_projection_names_push(fs.drop_first(), f);
    }
}

/// Accumulates field bindings and filter predicates for one entity table;
/// the terminal methods compile it into a SQL string plus an ordered
/// argument list, consuming the builder.
pub struct QueryBuilder {
    table: String,
    pointer: usize,
    fields: Vec<Field>,
    filters: Vec<Field>,
    arguments: Vec<Argument>,
}

impl View for QueryBuilder {
    type V = BuilderModel;

    closed spec fn view(&self) -> BuilderModel {
        BuilderModel {
            table: self.table@,
            pointer: self.pointer as int,
            fields: fields_view(self.fields@),
            filters: fields_view(self.filters@),
            arguments: args_view(self.arguments@),
        }
    }
}

impl QueryBuilder {
    /// A fresh builder for `table`: next position 1, nothing registered.
    pub fn new(table: &str) -> (r: QueryBuilder)
        ensures
            r@ == spec_new_builder(table@),
            r@.wf(),
    {
        let r = QueryBuilder {
            table: table.to_owned(),
            pointer: 1,
            fields: Vec::new(),
            filters: Vec::new(),
            arguments: Vec::new(),
        };
        proof {
            assert(r@ =~= spec_new_builder(table@));
        }
        r
    }

    /// Registers each name in order as a projection-only column.
    pub fn fields(&mut self, fields: Vec<&str>)
        ensures
            final(self)@.table == old(self)@.table,
            final(self)@.pointer == old(self)@.pointer,
            final(self)@.filters == old(self)@.filters,
            final(self)@.arguments == old(self)@.arguments,
            final(self)@.fields == old(self)@.fields + fields@.map_values(
                |n: &str| (FieldModel { name: n@, position: 0 }),
            ),
            old(self)@.wf() ==> final(self)@.wf(),
    {
        let ghost names = fields@.map_values(|n: &str| (FieldModel { name: n@, position: 0 }));
        let mut i: usize = 0;
        proof {
            assert(old(self)@.fields + names.take(0) =~= old(self)@.fields);
        }
        while i < fields.len()
            invariant
                i <= fields.len(),
                names == fields@.map_values(|n: &str| (FieldModel { name: n@, position: 0 })),
                self@.table == old(self)@.table,
                self@.pointer == old(self)@.pointer,
                self@.filters == old(self)@.filters,
                self@.arguments == old(self)@.arguments,
                self@.fields == old(self)@.fields + names.take(i as int),
            decreases fields.len() - i,
        {
            self.field(fields[i]);
            proof {
                assert(old(self)@.fields + names.take(i + 1) =~= (old(self)@.fields + names.take(
                    i as int,
                )).push(names[i as int]));
            }
            i += 1;
        }
        proof {
            assert(names.take(fields@.len() as int) =~= names);
        }
    }

    /// Registers one projection-only column (position 0); no argument is
    /// consumed.
    pub fn field(&mut self, field: &str)
        ensures
            final(self)@ == spec_field(old(self)@, field@),
            old(self)@.wf() ==> final(self)@.wf(),
    {
        self.fields.push(Field { value: field.to_owned(), position: 0 });
        proof {
            assert(self@ =~= spec_field(old(self)@, field@));
        }
    }

    /// Registers a bound field at the current position, appends the value,
    /// and advances the position.
    pub fn field_with_argument(&mut self, field: &str, value: Argument)
        requires
            old(self)@.pointer < usize::MAX,
        ensures
            final(self)@ == spec_field_with_argument(old(self)@, field@, value@),
            old(self)@.wf() ==> final(self)@.wf(),
    {
        self.fields.push(Field { value: field.to_owned(), position: self.pointer });
        self.arguments.push(value);
        self.pointer += 1;
        proof {
            assert(self@ =~= spec_field_with_argument(old(self)@, field@, value@));
        }
    }

    /// Registers a filter whose placeholder token is substituted by the
    /// current position, appends the value, and advances the position. The
    /// template must be a statically authored predicate, never
    /// caller-supplied text.
    pub fn where_raw(&mut self, field: &str, value: Argument)
        requires
            old(self)@.pointer < usize::MAX,
        ensures
            final(self)@ == spec_where_raw(old(self)@, field@, value@),
            old(self)@.wf() ==> final(self)@.wf(),
    {
        let text = substitute_index(field, self.pointer);
        self.filters.push(Field { value: text, position: self.pointer });
        self.arguments.push(value);
        self.pointer += 1;
        proof {
            assert(self@ =~= spec_where_raw(old(self)@, field@, value@));
        }
    }

    /// Registers the equality filter `field = $n` for the current position
    /// `n`, appends the value, and advances the position.
    pub fn where_eq(&mut self, field: &str, value: Argument)
        requires
            old(self)@.pointer < usize::MAX,
        ensures
            final(self)@ == spec_where_eq(old(self)@, field@, value@),
            old(self)@.wf() ==> final(self)@.wf(),
    {
        let mut text = field.to_owned();
        text.append(" = $");
        push_dec(&mut text, self.pointer);
        self.filters.push(Field { value: text, position: self.pointer });
        self.arguments.push(value);
        self.pointer += 1;
        proof {
            assert(self@ =~= spec_where_eq(old(self)@, field@, value@));
        }
    }

    /// Registers the set-membership filter `field = ANY($n)` for the current
    /// position `n`, appends the value, and advances the position.
    pub fn where_any(&mut self, field: &str, value: Argument)
        requires
            old(self)@.pointer < usize::MAX,
        ensures
            final(self)@ == spec_where_any(old(self)@, field@, value@),
            old(self)@.wf() ==> final(self)@.wf(),
    {
        let mut text = field.to_owned();
        text.append(" = ANY($");
        push_dec(&mut text, self.pointer);
        text.append(")");
        self.filters.push(Field { value: text, position: self.pointer });
        self.arguments.push(value);
        self.pointer += 1;
        proof {
            assert(self@ =~= spec_where_any(old(self)@, field@, value@));
        }
    }

    /// Whether at least one binding has occurred (a pure observation: the
    /// builder is left untouched).
    pub fn has_fields(&self) -> (r: bool)
        ensures
            r == (self@.pointer > 1),
    {
        self.pointer > 1
    }

    /// Renders the WHERE clause body: the filters' texts joined by AND, in
    /// registration order.
    pub fn get_where_query(filters: Vec<Field>) -> (r: String)
        ensures
            r@ == spec_where_clause(fields_view(filters@)),
    {
        let ghost fv = fields_view(filters@);
        let mut texts: Vec<String> = Vec::new();
        let mut i: usize = 0;
        while i < filters.len()
            invariant
                i <= filters.len(),
                fv == fields_view(filters@),
                views_of(texts@) == filter_texts(fv.take(i as int)),
            decreases filters.len() - i,
        {
            let ghost old_texts = texts@;
            texts.push(filters[i].value.clone());
            proof {
                lemma_views_of_push(old_texts, filters@[i as int].value);
                assert(filter_texts(fv.take(i + 1)) =~= filter_texts(fv.take(i as int)).push(
                    fv[i as int].name,
                ));
            }
            i += 1;
        }
        proof {
            assert(fv.take(filters@.len() as int) =~= fv);
        }
        join_strings(&texts, " AND ")
    }

    /// Compiles the builder into an INSERT statement: exactly the bound
    /// fields as the column and value lists, in registration order, with
    /// every bound value in the argument list; filters never appear.
    pub fn insert_query(self) -> (r: (String, Vec<Argument>))
        ensures
            r.0@ == spec_insert_sql(self@),
            args_view(r.1@) == self@.arguments,
    {
        let ghost b = self@;
        let QueryBuilder { table, pointer: _, fields, filters: _, arguments } = self;
        let ghost fv = fields_view(fields@);
        let mut names: Vec<String> = Vec::new();
        let mut phs: Vec<String> = Vec::new();
        let mut i: usize = 0;
        while i < fields.len()
            invariant
                i <= fields.len(),
                fv == fields_view(fields@),
                views_of(names@) == bound_names(fv.take(i as int)),
                views_of(phs@) == bound_placeholders(fv.take(i as int)),
            decreases fields.len() - i,
        {
            let ghost old_names = names@;
            let ghost old_phs = phs@;
            let bound = fields[i].position > 0;
            if bound {
                names.push(fields[i].value.clone());
                let mut p = String::from_str("$");
                push_dec(&mut p, fields[i].position);
                phs.push(p);
            }
            proof {
                assert(fv.take(i + 1) =~= fv.take(i as int).push(fv[i as int]));
                lemma_bound_names_push(fv.take(i as int), fv[i as int]);
                lemma_bound_placeholders_push(fv.take(i as int), fv[i as int]);
                if bound {
                    lemma_views_of_push(old_names, fields@[i as int].value);
                    assert(views_of(names@) =~= bound_names(fv.take(i + 1)));
                    assert(views_of(phs@) =~= bound_placeholders(fv.take(i + 1)));
                } else {
                    assert(bound_names(fv.take(i + 1)) =~= bound_names(fv.take(i as int)));
                    assert(bound_placeholders(fv.take(i + 1)) =~= bound_placeholders(
                        fv.take(i as int),
                    ));
                }
            }
            i += 1;
        }
        proof {
            assert(fv.take(fields@.len() as int) =~= fv);
        }
        let mut sql = String::from_str("INSERT INTO ");
        sql.append(table.as_str());
        sql.append(" (");
        sql.append(join_strings(&names, ", ").as_str());
        sql.append(") VALUES (");
        sql.append(join_strings(&phs, ", ").as_str());
        sql.append(") RETURNING id");
        proof {
            assert(sql@ == spec_insert_sql(b));
        }
        (sql, arguments)
    }

    /// Compiles the builder into an UPDATE statement: the bound fields as
    /// the SET list and all filters, joined by AND, as the WHERE clause.
    /// Binding at least one field first is the caller's contract: with none
    /// the emitted SET list is empty and the statement not valid SQL.
    pub fn update_query(self) -> (r: (String, Vec<Argument>))
        ensures
            r.0@ == spec_update_sql(self@),
            args_view(r.1@) == self@.arguments,
    {
        let ghost b = self@;
        let QueryBuilder { table, pointer: _, fields, filters, arguments } = self;
        let ghost fv = fields_view(fields@);
        let mut sets: Vec<String> = Vec::new();
        let mut i: usize = 0;
        while i < fields.len()
            invariant
                i <= fields.len(),
                fv == fields_view(fields@),
                views_of(sets@) == bound_set_fragments(fv.take(i as int)),
            decreases fields.len() - i,
        {
            let ghost old_sets = sets@;
            let bound = fields[i].position > 0;
            if bound {
                let mut s = fields[i].value.clone();
                s.append(" = $");
                push_dec(&mut s, fields[i].position);
                sets.push(s);
            }
            proof {
                assert(fv.take(i + 1) =~= fv.take(i as int).push(fv[i as int]));
                lemma_bound_set_fragments_push(fv.take(i as int), fv[i as int]);
                if bound {
                    assert(views_of(sets@) =~= bound_set_fragments(fv.take(i + 1)));
                } else {
                    assert(bound_set_fragments(fv.take(i + 1)) =~= bound_set_fragments(
                        fv.take(i as int),
                    ));
                }
            }
            i += 1;
        }
        proof {
            assert(fv.take(fields@.len() as int) =~= fv);
        }
        let mut sql = String::from_str("UPDATE ");
        sql.append(table.as_str());
        sql.append(" SET ");
        sql.append(join_strings(&sets, ", ").as_str());
        sql.append(" WHERE ");
        sql.append(QueryBuilder::get_where_query(filters).as_str());
        proof {
            assert(sql@ == spec_update_sql(b));
        }
        (sql, arguments)
    }

    /// Compiles the builder into a SELECT statement: exactly the
    /// projection-only fields, in registration order, with all filters,
    /// joined by AND, as the WHERE clause.
    pub fn select_query(self) -> (r: (String, Vec<Argument>))
        ensures
            r.0@ == spec_select_sql(self@),
            args_view(r.1@) == self@.arguments,
    {
        let ghost b = self@;
        let QueryBuilder { table, pointer: _, fields, filters, arguments } = self;
        let ghost fv = fields_view(fields@);
        let mut projs: Vec<String> = Vec::new();
        let mut i: usize = 0;
        while i < fields.len()
            invariant
                i <= fields.len(),
                fv == fields_view(fields@),
                views_of(projs@) == projection_names(fv.take(i as int)),
            decreases fields.len() - i,
        {
            let ghost old_projs = projs@;
            let keep = fields[i].position == 0;
            if keep {
                projs.push(fields[i].value.clone());
            }
            proof {
                assert(fv.take(i + 1) =~= fv.take(i as int).push(fv[i as int]));
                lemma_projection_names_push(fv.take(i as int), fv[i as int]);
                if keep {
                    lemma_views_of_push(old_projs, fields@[i as int].value);
                    assert(views_of(projs@) =~= projection_names(fv.take(i + 1)));
                } else {
                    assert(projection_names(fv.take(i + 1)) =~= projection_names(
                        fv.take(i as int),
                    ));
                }
            }
            i += 1;
        }
        proof {
            assert(fv.take(fields@.len() as int) =~= fv);
        }
        let mut sql = String::from_str("SELECT ");
        sql.append(join_strings(&projs, ", ").as_str());
        sql.append(" FROM ");
        sql.append(table.as_str());
        sql.append(" WHERE ");
        sql.append(QueryBuilder::get_where_query(filters).as_str());
        proof {
            assert(sql@ == spec_select_sql(b));
        }
        (sql, arguments)
    }

    /// Compiles the builder into a DELETE statement with all filters,
    /// joined by AND, as the WHERE clause.
    pub fn delete_query(self) -> (r: (String, Vec<Argument>))
        ensures
            r.0@ == spec_delete_sql(self@),
            args_view(r.1@) == self@.arguments,
    {
        let ghost b = self@;
        let QueryBuilder { table, pointer: _, fields: _, filters, arguments } = self;
        let mut sql = String::from_str("DELETE FROM ");
        sql.append(table.as_str());
        sql.append(" WHERE ");
        sql.append(QueryBuilder::get_where_query(filters).as_str());
        proof {
            assert(sql@ == spec_delete_sql(b));
        }
        (sql, arguments)
    }
}

} // verus!
