//! What is written as a statement is read back as that statement.

use vstd::prelude::*;

use crate::defs::ast::{
    AlterClauseView, AlterTransformView, DefinitionRefView, FieldDefView, GroupByKeyView,
    KeySpaceView, RelationshipDefView, StatementView, TransformDefView, TransformRefView,
};
use crate::defs::error::ParseErrorView;
use crate::defs::grammar::{
    alter_clause, alter_clauses, alter_transform, at_keyword, dotted_parts, field, fields,
    group_by_key, group_by_keys, key_space, relationship_def, statement, table_dot_column,
    table_ref, tok, transform_address, transform_def, transform_of, transform_tail,
};
use crate::defs::lexer::{digits_end, ident_char, led_by, tokens_of, TokenView};
use crate::defs::literal_laws::{space_leads, string_leads, tokens_shift, word_leads};
use crate::defs::writing_laws::{
    expressions_read_back, stands, stands_in_two, token_stands, words_differ, writable, written,
};
use crate::sql::quoted_string;
use crate::text::{same_ignoring_case, upper};

verus! {

// ---------------------------------------------------------------------------
// Parts of statements
// ---------------------------------------------------------------------------

/// A word in tokens.
pub open spec fn word(s: Seq<char>) -> Seq<TokenView> {
    seq![TokenView::Ident(s)]
}

/// A symbol in tokens.
pub open spec fn mark(c: char) -> Seq<TokenView> {
    seq![TokenView::Symbol(c)]
}

/// A table, behind its schema where there is one.
pub open spec fn written_table(schema: Option<Seq<char>>, table: Seq<char>) -> Seq<TokenView> {
    match schema {
        Some(s) => seq![TokenView::Ident(s), TokenView::Symbol('.'), TokenView::Ident(table)],
        None => seq![TokenView::Ident(table)],
    }
}

/// A key.
pub open spec fn written_key(k: GroupByKeyView) -> Seq<TokenView> {
    match k {
        GroupByKeyView::Column(n) => seq![TokenView::Ident(n)],
        GroupByKeyView::RelationshipPath { rel, column } => seq![
            TokenView::Ident(rel),
            TokenView::Symbol('.'),
            TokenView::Ident(column),
        ],
    }
}

/// The keys, with commas between them.
pub open spec fn written_keys(ks: Seq<GroupByKeyView>) -> Seq<TokenView>
    decreases ks.len(),
{
    if ks.len() == 0 {
        seq![]
    } else if ks.len() == 1 {
        written_key(ks[0])
    } else {
        written_key(ks[0]) + (mark(',') + written_keys(ks.skip(1)))
    }
}

/// A field.
pub open spec fn written_field(f: FieldDefView) -> Seq<TokenView> {
    written(f.expr) + seq![TokenView::Ident("AS"@), TokenView::Ident(f.name)]
}

/// The fields, with commas between them.
pub open spec fn written_fields(fs: Seq<FieldDefView>) -> Seq<TokenView>
    decreases fs.len(),
{
    if fs.len() == 0 {
        seq![]
    } else if fs.len() == 1 {
        written_field(fs[0])
    } else {
        written_field(fs[0]) + (mark(',') + written_fields(fs.skip(1)))
    }
}

/// A key space.
pub open spec fn written_key_space(k: KeySpaceView) -> Seq<TokenView> {
    match k {
        KeySpaceView::OneToOne => seq![],
        KeySpaceView::Aggregate { group_by } => seq![
            TokenView::Ident("GROUP"@),
            TokenView::Ident("BY"@),
        ] + written_keys(group_by),
    }
}

/// A transform definition in tokens.
pub open spec fn written_transform(d: TransformDefView) -> Seq<TokenView> {
    word("TRANSFORM"@) + (written_table(d.explicit_target_schema, d.target) + (word("FROM"@) + (
    written_table(d.explicit_source_schema, d.source) + (written_key_space(d.key_space) + (word(
        "SELECT"@,
    ) + written_fields(d.fields))))))
}

/// The definition can be written.
pub open spec fn writable_transform(d: TransformDefView) -> bool {
    &&& d.fields.len() > 0
    &&& d.key_space matches KeySpaceView::Aggregate { group_by } ==> group_by.len() > 0
    &&& forall|i: int|
        0 <= i < d.fields.len() ==> writable(
            (#[trigger] d.fields[i]).expr,
            d.key_space is Aggregate,
        )
}

proof fn refers_to_itself(ts: Seq<TokenView>, p: int, s: Seq<char>)
    requires
        stands(ts, p, word(s)),
    ensures
        at_keyword(ts, p, s),
        tok(ts, p) == TokenView::Ident(s),
{
    token_stands(ts, p, word(s), 0);
}

proof fn tables_read_back(
    ts: Seq<TokenView>,
    p: int,
    schema: Option<Seq<char>>,
    table: Seq<char>,
)
    requires
        stands(ts, p, written_table(schema, table)),
        tok(ts, p + written_table(schema, table).len()) != TokenView::Symbol('.'),
    ensures
        table_ref(ts, p) == Ok::<(Seq<char>, Option<Seq<char>>, int), ParseErrorView>(
            (table, schema, p + written_table(schema, table).len()),
        ),
{
    let w = written_table(schema, table);
    token_stands(ts, p, w, 0);
    if schema is Some {
        token_stands(ts, p, w, 1);
        token_stands(ts, p, w, 2);
    }
}

proof fn keys_read_back(
    ts: Seq<TokenView>,
    p: int,
    ks: Seq<GroupByKeyView>,
    acc: Seq<GroupByKeyView>,
)
    requires
        ks.len() > 0,
        stands(ts, p, written_keys(ks)),
        tok(ts, p + written_keys(ks).len()) is Ident,
    ensures
        group_by_keys(ts, p, acc) == Ok::<(Seq<GroupByKeyView>, int), ParseErrorView>(
            (acc + ks, p + written_keys(ks).len()),
        ),
    decreases ks.len(),
{
    let k = ks[0];
    let w = written_key(k);
    if ks.len() == 1 {
        token_stands(ts, p, w, 0);
        if k is RelationshipPath {
            token_stands(ts, p, w, 1);
            token_stands(ts, p, w, 2);
        }
        assert(group_by_key(ts, p) == Ok::<(GroupByKeyView, int), ParseErrorView>(
            (k, p + w.len()),
        ));
        assert(acc.push(k) =~= acc + ks);
    } else {
        let more = ks.skip(1);
        stands_in_two(ts, p, w, mark(',') + written_keys(more));
        let q = p + w.len();
        stands_in_two(ts, q, mark(','), written_keys(more));
        token_stands(ts, q, mark(','), 0);
        token_stands(ts, p, w, 0);
        if k is RelationshipPath {
            token_stands(ts, p, w, 1);
            token_stands(ts, p, w, 2);
        }
        assert(group_by_key(ts, p) == Ok::<(GroupByKeyView, int), ParseErrorView>((k, q)));
        assert(written_keys(ks).len() == w.len() + 1 + written_keys(more).len());
        keys_read_back(ts, q + 1, more, acc.push(k));
        assert(acc.push(k) + more =~= acc + ks);
    }
}

proof fn field_reads_back(ts: Seq<TokenView>, p: int, agg: bool, f: FieldDefView)
    requires
        writable(f.expr, agg),
        stands(ts, p, written_field(f)),
    ensures
        field(ts, p, agg) == Ok::<(FieldDefView, int), ParseErrorView>(
            (f, p + written_field(f).len()),
        ),
{
    let named = seq![TokenView::Ident("AS"@), TokenView::Ident(f.name)];
    stands_in_two(ts, p, written(f.expr), named);
    let q = p + written(f.expr).len();
    token_stands(ts, q, named, 0);
    token_stands(ts, q, named, 1);
    reveal_strlit("AS");
    reveal_strlit("PRECISION");
    words_differ("AS"@, "PRECISION"@);
    expressions_read_back(ts, p, agg, f.expr);
}

proof fn fields_read_back(
    ts: Seq<TokenView>,
    p: int,
    agg: bool,
    fs: Seq<FieldDefView>,
    acc: Seq<FieldDefView>,
)
    requires
        fs.len() > 0,
        forall|i: int| 0 <= i < fs.len() ==> writable((#[trigger] fs[i]).expr, agg),
        stands(ts, p, written_fields(fs)),
        tok(ts, p + written_fields(fs).len()) != TokenView::Symbol(','),
    ensures
        fields(ts, p, agg, acc) == Ok::<(Seq<FieldDefView>, int), ParseErrorView>(
            (acc + fs, p + written_fields(fs).len()),
        ),
    decreases fs.len(),
{
    let f = fs[0];
    let w = written_field(f);
    assert(writable(f.expr, agg));
    if fs.len() == 1 {
        field_reads_back(ts, p, agg, f);
        assert(acc.push(f) =~= acc + fs);
    } else {
        let more = fs.skip(1);
        stands_in_two(ts, p, w, mark(',') + written_fields(more));
        let q = p + w.len();
        stands_in_two(ts, q, mark(','), written_fields(more));
        token_stands(ts, q, mark(','), 0);
        field_reads_back(ts, p, agg, f);
        assert forall|i: int| 0 <= i < more.len() implies writable(
            (#[trigger] more[i]).expr,
            agg,
        ) by {
            assert(writable(fs[i + 1].expr, agg));
        }
        assert(written_fields(fs).len() == w.len() + 1 + written_fields(more).len());
        fields_read_back(ts, q + 1, agg, more, acc.push(f));
        assert(acc.push(f) + more =~= acc + fs);
    }
}

proof fn key_spaces_read_back(ts: Seq<TokenView>, p: int, k: KeySpaceView)
    requires
        k matches KeySpaceView::Aggregate { group_by } ==> group_by.len() > 0,
        stands(ts, p, written_key_space(k)),
        stands(ts, p + written_key_space(k).len(), word("SELECT"@)),
    ensures
        key_space(ts, p) == Ok::<(KeySpaceView, int), ParseErrorView>(
            (k, p + written_key_space(k).len()),
        ),
{
    reveal_strlit("SELECT");
    reveal_strlit("GROUP");
    reveal_strlit("JOIN");
    words_differ("SELECT"@, "JOIN"@);
    words_differ("SELECT"@, "GROUP"@);
    words_differ("GROUP"@, "JOIN"@);
    refers_to_itself(ts, p + written_key_space(k).len(), "SELECT"@);
    if let KeySpaceView::Aggregate { group_by } = k {
        let head = seq![TokenView::Ident("GROUP"@), TokenView::Ident("BY"@)];
        stands_in_two(ts, p, head, written_keys(group_by));
        token_stands(ts, p, head, 0);
        token_stands(ts, p, head, 1);
        keys_read_back(ts, p + 2, group_by, seq![]);
        assert(seq![] + group_by =~= group_by);
    }
}

/// What stands behind the source of a definition.
spec fn written_tail(d: TransformDefView) -> Seq<TokenView> {
    written_key_space(d.key_space) + (word("SELECT"@) + written_fields(d.fields))
}

proof fn tails_read_back(ts: Seq<TokenView>, p: int, d: TransformDefView)
    requires
        writable_transform(d),
        stands(ts, p, written_tail(d)),
        tok(ts, p + written_tail(d).len()) == TokenView::Eof,
    ensures
        key_space(ts, p) matches Ok((k, q)) && k == d.key_space && transform_tail(
            ts,
            q,
            (d.target, d.explicit_target_schema),
            (d.source, d.explicit_source_schema),
            k,
        ) == Ok::<TransformDefView, ParseErrorView>(d),
        tok(ts, p) is Ident,
{
    let ks = written_key_space(d.key_space);
    stands_in_two(ts, p, ks, word("SELECT"@) + written_fields(d.fields));
    let q = p + ks.len();
    stands_in_two(ts, q, word("SELECT"@), written_fields(d.fields));
    refers_to_itself(ts, q, "SELECT"@);
    if ks.len() > 0 {
        token_stands(ts, p, ks, 0);
    }
    key_spaces_read_back(ts, p, d.key_space);
    fields_read_back(ts, q + 1, d.key_space is Aggregate, d.fields, seq![]);
    assert(seq![] + d.fields =~= d.fields);
}

proof fn five_parts_stand(
    ts: Seq<TokenView>,
    a: Seq<TokenView>,
    b: Seq<TokenView>,
    c: Seq<TokenView>,
    d: Seq<TokenView>,
    e: Seq<TokenView>,
)
    requires
        stands(ts, 0, a + (b + (c + (d + e)))),
    ensures
        stands(ts, 0, a),
        stands(ts, a.len() as int, b),
        stands(ts, a.len() as int + b.len(), c),
        stands(ts, a.len() as int + b.len() + c.len(), d),
        stands(ts, a.len() as int + b.len() + c.len() + d.len(), e),
        a.len() + b.len() + c.len() + d.len() + e.len() == (a + (b + (c + (d + e)))).len(),
{
    stands_in_two(ts, 0, a, b + (c + (d + e)));
    stands_in_two(ts, a.len() as int, b, c + (d + e));
    stands_in_two(ts, a.len() as int + b.len(), c, d + e);
    stands_in_two(ts, a.len() as int + b.len() + c.len(), d, e);
}

proof fn definition_reads_back(ts: Seq<TokenView>, p: int, q: int, d: TransformDefView)
    requires
        writable_transform(d),
        stands(ts, 0, word("TRANSFORM"@)),
        stands(ts, 1, written_table(d.explicit_target_schema, d.target)),
        p == 1 + written_table(d.explicit_target_schema, d.target).len(),
        stands(ts, p, word("FROM"@)),
        stands(ts, p + 1, written_table(d.explicit_source_schema, d.source)),
        q == p + 1 + written_table(d.explicit_source_schema, d.source).len(),
        stands(ts, q, written_tail(d)),
        tok(ts, q + written_tail(d).len()) == TokenView::Eof,
    ensures
        at_keyword(ts, 0, "TRANSFORM"@),
        transform_def(ts, 0) == Ok::<TransformDefView, ParseErrorView>(d),
{
    refers_to_itself(ts, 0, "TRANSFORM"@);
    refers_to_itself(ts, p, "FROM"@);
    tails_read_back(ts, q, d);
    tables_read_back(ts, 1, d.explicit_target_schema, d.target);
    tables_read_back(ts, p + 1, d.explicit_source_schema, d.source);
}

/// Whatever is written as a transform definition reads back as that definition:
/// its tables, its keys, and its fields in their order.
pub proof fn transforms_read_back(ts: Seq<TokenView>, d: TransformDefView)
    requires
        writable_transform(d),
        stands(ts, 0, written_transform(d)),
        tok(ts, written_transform(d).len() as int) == TokenView::Eof,
    ensures
        transform_def(ts, 0) == Ok::<TransformDefView, ParseErrorView>(d),
        statement(ts, 0) == Ok::<StatementView, ParseErrorView>(StatementView::DefineTransform(d)),
{
    let (target, source) = (
        written_table(d.explicit_target_schema, d.target),
        written_table(d.explicit_source_schema, d.source),
    );
    five_parts_stand(ts, word("TRANSFORM"@), target, word("FROM"@), source, written_tail(d));
    let p = 1int + target.len();
    definition_reads_back(ts, p, p + 1 + source.len(), d);
    assert(statement(ts, 0) == Ok::<StatementView, ParseErrorView>(
        StatementView::DefineTransform(d),
    ));
}

// ---------------------------------------------------------------------------
// Texts
// ---------------------------------------------------------------------------

/// A token as it is spelled.
pub open spec fn spelled_token(t: TokenView) -> Seq<char> {
    match t {
        TokenView::Ident(s) => s,
        TokenView::Number(n) => n,
        TokenView::String(s) => quoted_string(s),
        TokenView::Symbol(c) => seq![c],
        TokenView::Eof => seq![],
    }
}

/// Tokens as they are spelled, each with a blank behind it.
pub open spec fn spelled(ts: Seq<TokenView>) -> Seq<char>
    decreases ts.len(),
{
    if ts.len() == 0 {
        seq![]
    } else {
        spelled_token(ts[0]) + (seq![' '] + spelled(ts.skip(1)))
    }
}

/// Nothing but digits, and at least one.
pub open spec fn is_digits(s: Seq<char>) -> bool {
    s.len() > 0 && forall|i: int| 0 <= i < s.len() ==> '0' <= #[trigger] s[i] <= '9'
}

/// The token can be spelled: a word starts with a letter or an underscore and
/// goes on with these or digits, a number is digits with at most a fraction
/// behind them, and a symbol is one of those that mean something.
pub open spec fn can_be_spelled(t: TokenView) -> bool {
    match t {
        TokenView::Ident(s) => s.len() > 0 && !('0' <= s[0] <= '9') && forall|i: int|
            0 <= i < s.len() ==> ('a' <= #[trigger] s[i] <= 'z' || 'A' <= s[i] <= 'Z' || '0' <= s[i]
                <= '9' || s[i] == '_'),
        TokenView::Number(n) => is_digits(n) || exists|a: Seq<char>, b: Seq<char>| #[trigger]
            (a + (seq!['.'] + b)) == n && is_digits(a) && is_digits(b),
        TokenView::String(_) => true,
        TokenView::Symbol(c) => "+-*/%=,().<>"@.contains(c),
        TokenView::Eof => false,
    }
}

proof fn run_of_digits(cs: Seq<char>, i: int, j: int)
    requires
        0 <= i <= j <= cs.len(),
        forall|k: int| i <= k < j ==> '0' <= #[trigger] cs[k] <= '9',
        j < cs.len() ==> !('0' <= cs[j] <= '9'),
    ensures
        digits_end(cs, i) == j,
    decreases j - i,
{
    if i < j {
        assert('0' <= cs[i] <= '9');
        run_of_digits(cs, i + 1, j);
    }
}

proof fn number_leads(n: Seq<char>, rest: Seq<char>)
    requires
        can_be_spelled(TokenView::Number(n)),
    ensures
        tokens_of(n + (seq![' '] + rest)) == led_by(
            TokenView::Number(n),
            tokens_of(seq![' '] + rest),
        ),
{
    let cs = n + (seq![' '] + rest);
    let k = n.len() as int;
    assert(cs[k] == ' ');
    if is_digits(n) {
        assert forall|i: int| 0 <= i < k implies '0' <= #[trigger] cs[i] <= '9' by {
            assert(cs[i] == n[i]);
        }
        run_of_digits(cs, 0, k);
    } else {
        let (a, b) = choose|a: Seq<char>, b: Seq<char>| #[trigger]
            (a + (seq!['.'] + b)) == n && is_digits(a) && is_digits(b);
        let m = a.len() as int;
        assert(n[m] == '.' && cs[m] == '.');
        assert forall|i: int| 0 <= i < m implies '0' <= #[trigger] cs[i] <= '9' by {
            assert(cs[i] == n[i] && n[i] == a[i]);
        }
        assert forall|i: int| m + 1 <= i < k implies '0' <= #[trigger] cs[i] <= '9' by {
            assert(cs[i] == n[i] && n[i] == b[i - m - 1]);
        }
        run_of_digits(cs, 0, m);
        run_of_digits(cs, m + 1, k);
        assert('0' <= cs[m + 1] <= '9');
        assert('0' <= cs[0] <= '9');
    }
    assert(cs.subrange(0, k) =~= n);
    assert('0' <= cs[0] <= '9');
    tokens_shift(n, seq![' '] + rest, 0);
}

proof fn symbol_leads(c: char, rest: Seq<char>)
    requires
        can_be_spelled(TokenView::Symbol(c)),
    ensures
        tokens_of(seq![c] + rest) == led_by(TokenView::Symbol(c), tokens_of(rest)),
{
    let cs = seq![c] + rest;
    reveal_strlit("+-*/%=,().<>");
    let all = "+-*/%=,().<>"@;
    let i = all.index_of(c);
    assert(all.len() == 12);
    assert(i == 0 || i == 1 || i == 2 || i == 3 || i == 4 || i == 5 || i == 6 || i == 7 || i == 8
        || i == 9 || i == 10 || i == 11);
    assert(all[i] == c);
    assert(cs[0] == c);
    tokens_shift(seq![c], rest, 0);
}

/// Tokens that are spelled with blanks between them are read as those tokens.
pub proof fn texts_read_as_their_tokens(ts: Seq<TokenView>)
    requires
        forall|i: int| 0 <= i < ts.len() ==> can_be_spelled(#[trigger] ts[i]),
    ensures
        tokens_of(spelled(ts)) == Ok::<Seq<TokenView>, ParseErrorView>(ts.push(TokenView::Eof)),
    decreases ts.len(),
{
    if ts.len() == 0 {
        assert(ts.push(TokenView::Eof) =~= seq![TokenView::Eof]);
    } else {
        let (t, more) = (ts[0], ts.skip(1));
        assert(can_be_spelled(t));
        assert forall|i: int| 0 <= i < more.len() implies can_be_spelled(#[trigger] more[i]) by {
            assert(can_be_spelled(ts[i + 1]));
        }
        texts_read_as_their_tokens(more);
        let rest = seq![' '] + spelled(more);
        space_leads(spelled(more));
        assert(rest[0] == ' ');
        match t {
            TokenView::Ident(s) => {
                assert forall|i: int| 0 <= i < s.len() implies ident_char(#[trigger] s[i]) by {}
                assert(ident_char(s[0]));
                word_leads(s, rest);
            },
            TokenView::Number(n) => {
                number_leads(n, spelled(more));
            },
            TokenView::String(s) => {
                string_leads(s, rest);
            },
            TokenView::Symbol(c) => {
                symbol_leads(c, rest);
            },
            TokenView::Eof => {},
        }
        assert(seq![t] + more.push(TokenView::Eof) =~= ts.push(TokenView::Eof));
    }
}

/// A text that spells a transform definition means that definition.
pub proof fn transform_texts_read_back(d: TransformDefView)
    requires
        writable_transform(d),
        forall|i: int|
            0 <= i < written_transform(d).len() ==> can_be_spelled(
                #[trigger] written_transform(d)[i],
            ),
    ensures
        transform_of(spelled(written_transform(d))) == Ok::<TransformDefView, ParseErrorView>(d),
{
    let w = written_transform(d);
    let ts = w.push(TokenView::Eof);
    texts_read_as_their_tokens(w);
    assert(stands(ts, 0, w)) by {
        assert(ts.subrange(0, w.len() as int) =~= w);
    }
    assert(tok(ts, w.len() as int) == TokenView::Eof);
    transforms_read_back(ts, d);
}

// ---------------------------------------------------------------------------
// Relationships
// ---------------------------------------------------------------------------

/// A relationship definition in tokens.
pub open spec fn written_relationship(d: RelationshipDefView) -> Seq<TokenView> {
    seq![
        TokenView::Ident("RELATIONSHIP"@),
        TokenView::Ident(d.name),
        TokenView::Ident("FROM"@),
        TokenView::Ident(d.from_table),
        TokenView::Symbol('.'),
        TokenView::Ident(d.from_col),
        TokenView::Ident("TO"@),
        TokenView::Ident(d.to_table),
        TokenView::Symbol('.'),
        TokenView::Ident(d.to_col),
    ]
}

/// Whatever is written as a relationship reads back as that relationship.
pub proof fn relationships_read_back(d: RelationshipDefView)
    ensures
        relationship_def(written_relationship(d), 0) == Ok::<RelationshipDefView, ParseErrorView>(
            d,
        ),
        statement(written_relationship(d), 0) == Ok::<StatementView, ParseErrorView>(
            StatementView::DefineRelationship(d),
        ),
{
    let ts = written_relationship(d);
    reveal_strlit("RELATIONSHIP");
    reveal_strlit("TRANSFORM");
    words_differ("RELATIONSHIP"@, "TRANSFORM"@);
    assert(ts.len() == 10);
    assert(tok(ts, 0) == TokenView::Ident("RELATIONSHIP"@));
    assert(tok(ts, 1) == TokenView::Ident(d.name));
    assert(tok(ts, 2) == TokenView::Ident("FROM"@));
    assert(tok(ts, 3) == TokenView::Ident(d.from_table));
    assert(tok(ts, 4) == TokenView::Symbol('.'));
    assert(tok(ts, 5) == TokenView::Ident(d.from_col));
    assert(tok(ts, 6) == TokenView::Ident("TO"@));
    assert(tok(ts, 7) == TokenView::Ident(d.to_table));
    assert(tok(ts, 8) == TokenView::Symbol('.'));
    assert(tok(ts, 9) == TokenView::Ident(d.to_col));
    assert(table_dot_column(ts, 3) == Ok::<(Seq<char>, Seq<char>, int), ParseErrorView>(
        (d.from_table, d.from_col, 6),
    ));
    assert(table_dot_column(ts, 7) == Ok::<(Seq<char>, Seq<char>, int), ParseErrorView>(
        (d.to_table, d.to_col, 10),
    ));
}

// ---------------------------------------------------------------------------
// Changing definitions
// ---------------------------------------------------------------------------

/// A clause of an `ALTER TRANSFORM`.
pub open spec fn written_clause(c: AlterClauseView) -> Seq<TokenView> {
    match c {
        AlterClauseView::Add(f) => word("ADD"@) + written_field(f),
        AlterClauseView::Drop(n) => seq![TokenView::Ident("DROP"@), TokenView::Ident(n)],
        AlterClauseView::Alter(f) => seq![
            TokenView::Ident("ALTER"@),
            TokenView::Ident(f.name),
            TokenView::Ident("AS"@),
        ] + written(f.expr),
    }
}

/// The clauses, with commas between them.
pub open spec fn written_clauses(cs: Seq<AlterClauseView>) -> Seq<TokenView>
    decreases cs.len(),
{
    if cs.len() == 0 {
        seq![]
    } else if cs.len() == 1 {
        written_clause(cs[0])
    } else {
        written_clause(cs[0]) + (mark(',') + written_clauses(cs.skip(1)))
    }
}

/// The clause can be written.
pub open spec fn writable_clause(c: AlterClauseView) -> bool {
    match c {
        AlterClauseView::Add(f) | AlterClauseView::Alter(f) => writable(f.expr, false),
        AlterClauseView::Drop(_) => true,
    }
}

proof fn clause_reads_back(ts: Seq<TokenView>, p: int, c: AlterClauseView)
    requires
        writable_clause(c),
        stands(ts, p, written_clause(c)),
        tok(ts, p + written_clause(c).len()) == TokenView::Symbol(',') || tok(
            ts,
            p + written_clause(c).len(),
        ) == TokenView::Eof,
    ensures
        alter_clause(ts, p) == Ok::<(AlterClauseView, int), ParseErrorView>(
            (c, p + written_clause(c).len()),
        ),
{
    reveal_strlit("ADD");
    reveal_strlit("DROP");
    reveal_strlit("ALTER");
    words_differ("DROP"@, "ADD"@);
    words_differ("ALTER"@, "ADD"@);
    words_differ("ALTER"@, "DROP"@);
    match c {
        AlterClauseView::Add(f) => {
            stands_in_two(ts, p, word("ADD"@), written_field(f));
            refers_to_itself(ts, p, "ADD"@);
            field_reads_back(ts, p + 1, false, f);
        },
        AlterClauseView::Drop(n) => {
            let w = written_clause(c);
            token_stands(ts, p, w, 0);
            token_stands(ts, p, w, 1);
        },
        AlterClauseView::Alter(f) => {
            let head = seq![
                TokenView::Ident("ALTER"@),
                TokenView::Ident(f.name),
                TokenView::Ident("AS"@),
            ];
            stands_in_two(ts, p, head, written(f.expr));
            token_stands(ts, p, head, 0);
            token_stands(ts, p, head, 1);
            token_stands(ts, p, head, 2);
            expressions_read_back(ts, p + 3, false, f.expr);
        },
    }
}

proof fn clauses_read_back(
    ts: Seq<TokenView>,
    p: int,
    cs: Seq<AlterClauseView>,
    acc: Seq<AlterClauseView>,
)
    requires
        cs.len() > 0,
        forall|i: int| 0 <= i < cs.len() ==> writable_clause(#[trigger] cs[i]),
        stands(ts, p, written_clauses(cs)),
        tok(ts, p + written_clauses(cs).len()) == TokenView::Eof,
    ensures
        alter_clauses(ts, p, acc) == Ok::<(Seq<AlterClauseView>, int), ParseErrorView>(
            (acc + cs, p + written_clauses(cs).len()),
        ),
    decreases cs.len(),
{
    let c = cs[0];
    let w = written_clause(c);
    assert(writable_clause(c));
    if cs.len() == 1 {
        clause_reads_back(ts, p, c);
        assert(acc.push(c) =~= acc + cs);
    } else {
        let more = cs.skip(1);
        stands_in_two(ts, p, w, mark(',') + written_clauses(more));
        let q = p + w.len();
        stands_in_two(ts, q, mark(','), written_clauses(more));
        token_stands(ts, q, mark(','), 0);
        clause_reads_back(ts, p, c);
        assert forall|i: int| 0 <= i < more.len() implies writable_clause(#[trigger] more[i]) by {
            assert(writable_clause(cs[i + 1]));
        }
        assert(written_clauses(cs).len() == w.len() + 1 + written_clauses(more).len());
        assert(w.len() > 0);
        clauses_read_back(ts, q + 1, more, acc.push(c));
        assert(acc.push(c) + more =~= acc + cs);
    }
}

/// An `ALTER TRANSFORM` in tokens.
pub open spec fn written_alter(a: AlterTransformView) -> Seq<TokenView> {
    seq![
        TokenView::Ident("ALTER"@),
        TokenView::Ident("TRANSFORM"@),
        TokenView::Ident(a.target),
    ] + written_clauses(a.clauses)
}

/// Whatever is written as an `ALTER TRANSFORM` reads back as that: its target,
/// and its clauses in their order.
pub proof fn alterations_read_back(a: AlterTransformView)
    requires
        a.clauses.len() > 0,
        forall|i: int| 0 <= i < a.clauses.len() ==> writable_clause(#[trigger] a.clauses[i]),
    ensures
        alter_transform(written_alter(a), 0) == Ok::<AlterTransformView, ParseErrorView>(a),
        statement(written_alter(a), 0) == Ok::<StatementView, ParseErrorView>(
            StatementView::AlterTransform(a),
        ),
{
    let ts = written_alter(a);
    let head = seq![
        TokenView::Ident("ALTER"@),
        TokenView::Ident("TRANSFORM"@),
        TokenView::Ident(a.target),
    ];
    assert(stands(ts, 0, ts)) by {
        assert(ts.subrange(0, ts.len() as int) =~= ts);
    }
    stands_in_two(ts, 0, head, written_clauses(a.clauses));
    token_stands(ts, 0, head, 0);
    token_stands(ts, 0, head, 1);
    token_stands(ts, 0, head, 2);
    reveal_strlit("ALTER");
    reveal_strlit("TRANSFORM");
    reveal_strlit("RELATIONSHIP");
    words_differ("ALTER"@, "TRANSFORM"@);
    words_differ("ALTER"@, "RELATIONSHIP"@);
    clauses_read_back(ts, 3, a.clauses, seq![]);
    assert(seq![] + a.clauses =~= a.clauses);
}

// ---------------------------------------------------------------------------
// Pausing, resuming and dropping
// ---------------------------------------------------------------------------

/// A definition's target, with a column behind it where one is meant.
pub open spec fn written_address(t: TransformRefView) -> Seq<TokenView> {
    match t.column {
        Some(c) => seq![TokenView::Ident(t.target), TokenView::Symbol('.'), TokenView::Ident(c)],
        None => seq![TokenView::Ident(t.target)],
    }
}

/// A statement on a transform in tokens.
pub open spec fn written_request(verb: Seq<char>, t: TransformRefView) -> Seq<TokenView> {
    seq![TokenView::Ident(verb), TokenView::Ident("TRANSFORM"@)] + written_address(t)
}

pub(crate) proof fn verbs_differ()
    ensures
        forall|v: Seq<char>|
            v == "PAUSE"@ || v == "RESUME"@ || v == "DROP"@ ==> !same_ignoring_case(
                v,
                "TRANSFORM"@,
            ) && !#[trigger] same_ignoring_case(v, "RELATIONSHIP"@) && !same_ignoring_case(
                v,
                "ALTER"@,
            ),
        !same_ignoring_case("RESUME"@, "PAUSE"@),
        !same_ignoring_case("DROP"@, "PAUSE"@),
        !same_ignoring_case("DROP"@, "RESUME"@),
{
    reveal_strlit("PAUSE");
    reveal_strlit("RESUME");
    reveal_strlit("DROP");
    reveal_strlit("ALTER");
    reveal_strlit("TRANSFORM");
    reveal_strlit("RELATIONSHIP");
    words_differ("PAUSE"@, "TRANSFORM"@);
    words_differ("PAUSE"@, "RELATIONSHIP"@);
    words_differ("RESUME"@, "TRANSFORM"@);
    words_differ("RESUME"@, "RELATIONSHIP"@);
    words_differ("RESUME"@, "ALTER"@);
    words_differ("RESUME"@, "PAUSE"@);
    words_differ("DROP"@, "TRANSFORM"@);
    words_differ("DROP"@, "RELATIONSHIP"@);
    words_differ("DROP"@, "ALTER"@);
    words_differ("DROP"@, "PAUSE"@);
    words_differ("DROP"@, "RESUME"@);
    assert(upper("PAUSE"@)[0] == 'P' && upper("ALTER"@)[0] == 'A');
}

/// Whatever is written as a pause or a resumption reads back as that, of the
/// definition or of one of its columns.
pub proof fn requests_read_back(t: TransformRefView)
    ensures
        statement(written_request("PAUSE"@, t), 0) == Ok::<StatementView, ParseErrorView>(
            StatementView::Pause(t),
        ),
        statement(written_request("RESUME"@, t), 0) == Ok::<StatementView, ParseErrorView>(
            StatementView::Resume(t),
        ),
{
    verbs_differ();
    request_reads_back("PAUSE"@, t);
    request_reads_back("RESUME"@, t);
    assert(!same_ignoring_case("PAUSE"@, "RELATIONSHIP"@));
    assert(!same_ignoring_case("RESUME"@, "RELATIONSHIP"@));
}

pub(crate) proof fn request_reads_back(verb: Seq<char>, t: TransformRefView)
    ensures
        tok(written_request(verb, t), 0) == TokenView::Ident(verb),
        tok(written_request(verb, t), 1) == TokenView::Ident("TRANSFORM"@),
        transform_address(written_request(verb, t), 2, verb) == Ok::<
            (Seq<char>, Option<Seq<char>>, int),
            ParseErrorView,
        >((t.target, t.column, written_request(verb, t).len() as int)),
{
    let ts = written_request(verb, t);
    let w = written_address(t);
    assert(tok(ts, 2) == w[0]);
    if t.column is Some {
        assert(tok(ts, 3) == w[1]);
        assert(tok(ts, 4) == w[2]);
    }
}

/// A `DROP` in tokens.
pub open spec fn written_drop(d: DefinitionRefView) -> Seq<TokenView> {
    match d {
        DefinitionRefView::Transform(target) => written_request(
            "DROP"@,
            TransformRefView { target, column: None },
        ),
        DefinitionRefView::Relationship { schema, from_table, name } => seq![
            TokenView::Ident("DROP"@),
            TokenView::Ident("RELATIONSHIP"@),
        ] + match schema {
            Some(s) => seq![
                TokenView::Ident(s),
                TokenView::Symbol('.'),
                TokenView::Ident(from_table),
                TokenView::Symbol('.'),
                TokenView::Ident(name),
            ],
            None => seq![
                TokenView::Ident(from_table),
                TokenView::Symbol('.'),
                TokenView::Ident(name),
            ],
        },
    }
}

/// Whatever is written as a drop reads back as that, and of what it names.
pub proof fn drops_read_back(d: DefinitionRefView)
    ensures
        statement(written_drop(d), 0) == Ok::<StatementView, ParseErrorView>(
            StatementView::Drop(d),
        ),
{
    verbs_differ();
    let ts = written_drop(d);
    assert(!same_ignoring_case("DROP"@, "RELATIONSHIP"@));
    match d {
        DefinitionRefView::Transform(target) => {
            request_reads_back("DROP"@, TransformRefView { target, column: None });
        },
        DefinitionRefView::Relationship { schema, from_table, name } => {
            reveal_strlit("TRANSFORM");
            reveal_strlit("RELATIONSHIP");
            words_differ("RELATIONSHIP"@, "TRANSFORM"@);
            assert(tok(ts, 0) == TokenView::Ident("DROP"@));
            assert(tok(ts, 1) == TokenView::Ident("RELATIONSHIP"@));
            match schema {
                Some(s) => {
                    assert(tok(ts, 2) == TokenView::Ident(s));
                    assert(tok(ts, 3) == TokenView::Symbol('.'));
                    assert(tok(ts, 4) == TokenView::Ident(from_table));
                    assert(tok(ts, 5) == TokenView::Symbol('.'));
                    assert(tok(ts, 6) == TokenView::Ident(name));
                    let all = seq![s].push(from_table).push(name);
                    assert(dotted_parts(ts, 7, all) == Ok::<(Seq<Seq<char>>, int), ParseErrorView>(
                        (all, 7),
                    ));
                    assert(dotted_parts(ts, 5, seq![s].push(from_table)) == Ok::<
                        (Seq<Seq<char>>, int),
                        ParseErrorView,
                    >((all, 7)));
                    assert(dotted_parts(ts, 3, seq![s]) == Ok::<
                        (Seq<Seq<char>>, int),
                        ParseErrorView,
                    >((all, 7)));
                },
                None => {
                    assert(tok(ts, 2) == TokenView::Ident(from_table));
                    assert(tok(ts, 3) == TokenView::Symbol('.'));
                    assert(tok(ts, 4) == TokenView::Ident(name));
                    let all = seq![from_table].push(name);
                    assert(dotted_parts(ts, 5, all) == Ok::<(Seq<Seq<char>>, int), ParseErrorView>(
                        (all, 5),
                    ));
                    assert(dotted_parts(ts, 3, seq![from_table]) == Ok::<
                        (Seq<Seq<char>>, int),
                        ParseErrorView,
                    >((all, 5)));
                },
            }
        },
    }
}

} // verus!
