use vstd::prelude::*;
use vstd::string::*;

use crate::text::{push_char, push_decimal, spec_decimal};

verus! {

/// The value groups of the bulk choice insert: one parenthesized group of
/// three numbered parameters per choice, the groups separated by commas, so
/// that every value is bound as a parameter and only the shape of the
/// statement depends on how many choices there are.
pub open spec fn spec_value_group(k: nat) -> Seq<char> {
    "($"@ + spec_decimal(3 * k + 1) + ", $"@ + spec_decimal(3 * k + 2) + ", $"@ + spec_decimal(
        3 * k + 3,
    ) + ")"@
}

/// The comma-separated value groups for n choices; empty for none.
pub open spec fn spec_value_groups(n: nat) -> Seq<char>
    decreases n,
{
    if n == 0 {
        Seq::empty()
    } else if n == 1 {
        spec_value_group(0)
    } else {
        spec_value_groups((n - 1) as nat) + ","@ + spec_value_group((n - 1) as nat)
    }
}

/// Builds the value groups of the bulk choice insert for n choices.
pub fn choice_value_groups(n: usize) -> (r: String)
    requires
        3 * n + 3 <= u64::MAX,
    ensures
        r@ == spec_value_groups(n as nat),
{
    let mut out = String::new();
    let mut k: usize = 0;
    while k < n
        invariant
            k <= n,
            3 * n + 3 <= u64::MAX,
            out@ == spec_value_groups(k as nat),
        decreases n - k,
    {
        if k > 0 {
            push_char(&mut out, ',');
        }
        let base: u64 = 3 * (k as u64);
        out.append("($");
        push_decimal(&mut out, base + 1);
        out.append(", $");
        push_decimal(&mut out, base + 2);
        out.append(", $");
        push_decimal(&mut out, base + 3);
        push_char(&mut out, ')');
        proof {
            reveal_strlit(")");
            reveal_strlit(",");
            assert((")"@) =~= Seq::<char>::empty().push(')'));
            if k == 0 {
                assert(out@ =~= spec_value_group(0));
            } else {
                assert((","@) =~= Seq::<char>::empty().push(','));
                assert(out@ =~= spec_value_groups(k as nat) + ","@ + spec_value_group(k as nat));
            }
        }
        k = k + 1;
    }
    out
}

/// The bulk insert of all choice rows of one question, returning the
/// generated ids in the order the value groups were supplied.
pub fn choices_insert_statement(n: usize) -> (r: String)
    requires
        3 * n + 3 <= u64::MAX,
    ensures
        r@ == "INSERT INTO choices (question_id, text, correct) VALUES "@ + spec_value_groups(
            n as nat,
        ) + " RETURNING id"@,
{
    let mut out = String::from_str("INSERT INTO choices (question_id, text, correct) VALUES ");
    let groups = choice_value_groups(n);
    out.append(groups.as_str());
    out.append(" RETURNING id");
    proof {
        assert(out@ =~= "INSERT INTO choices (question_id, text, correct) VALUES "@
            + spec_value_groups(n as nat) + " RETURNING id"@);
    }
    out
}

/// The insert of one question row, returning its generated id.
pub fn question_insert_statement() -> (r: &'static str)
    ensures
        r@ == "INSERT INTO questions (text, category) VALUES ($1, $2) RETURNING id"@,
{
    "INSERT INTO questions (text, category) VALUES ($1, $2) RETURNING id"
}

/// The category upsert: with a flag the insert names both columns and
/// updates the flag on conflict; without one it names only the name column
/// and a conflicting insert is a no-op.
pub fn category_upsert_statement(with_active: bool) -> (r: &'static str)
    ensures
        r@ == (if with_active {
            "INSERT INTO categories (name,active) VALUES ($1,$2) ON CONFLICT(name) DO UPDATE SET active=$2;"@
        } else {
            "INSERT INTO categories (name) VALUES ($1) ON CONFLICT DO NOTHING;"@
        }),
{
    if with_active {
        "INSERT INTO categories (name,active) VALUES ($1,$2) ON CONFLICT(name) DO UPDATE SET active=$2;"
    } else {
        "INSERT INTO categories (name) VALUES ($1) ON CONFLICT DO NOTHING;"
    }
}

/// The titles of the active categories.
pub fn list_categories_query() -> (r: &'static str)
    ensures
        r@ == "SELECT name FROM categories WHERE active = true"@,
{
    "SELECT name FROM categories WHERE active = true"
}

/// The flag toggle; touches a row only when the flag actually changes, so
/// the affected count reports whether anything changed.
pub fn set_category_active_statement() -> (r: &'static str)
    ensures
        r@ == "UPDATE categories SET active = $1 WHERE name = $2 AND active != $1"@,
{
    "UPDATE categories SET active = $1 WHERE name = $2 AND active != $1"
}

/// The count of the questions of one active category.
pub fn count_questions_query() -> (r: &'static str)
    ensures
        r@
            == "SELECT COUNT(q.id) FROM questions q INNER JOIN categories c ON c.name = q.category WHERE c.name = $1 AND c.active = TRUE"@,
{
    "SELECT COUNT(q.id) FROM questions q INNER JOIN categories c ON c.name = q.category WHERE c.name = $1 AND c.active = TRUE"
}

/// One page of the question rows of one active category.
pub fn questions_page_query() -> (r: &'static str)
    ensures
        r@
            == "SELECT q.id,q.text FROM questions q INNER JOIN categories c ON c.name = q.category WHERE c.name = $1 AND c.active = TRUE LIMIT $2 OFFSET $3"@,
{
    "SELECT q.id,q.text FROM questions q INNER JOIN categories c ON c.name = q.category WHERE c.name = $1 AND c.active = TRUE LIMIT $2 OFFSET $3"
}

/// The batch fetch of the choice rows of a set of questions.
pub fn choices_batch_query() -> (r: &'static str)
    ensures
        r@ == "SELECT id,text,correct,question_id FROM choices WHERE question_id = ANY($1)"@,
{
    "SELECT id,text,correct,question_id FROM choices WHERE question_id = ANY($1)"
}

} // verus!
