//! Splitting DDL into statements, and telling a repeated migration from a
//! failed one.

use crate::scan;
use crate::sql::dialect::{self, SqlDialect};
use crate::text;
use vstd::prelude::*;

verus! {

/// Lines joined by line feeds.
pub open spec fn joined(lines: Seq<Seq<char>>) -> Seq<char>
    decreases lines.len(),
{
    if lines.len() == 0 {
        Seq::empty()
    } else if lines.len() == 1 {
        lines[0]
    } else {
        joined(lines.drop_last()).push('\n') + lines.last()
    }
}

/// A line up to its comment.
pub open spec fn without_comment(line: Seq<char>) -> Seq<char> {
    line.take(scan::first_occurrence(line, "--"@))
}

/// DDL without its comments.
pub open spec fn stripped(ddl: Seq<char>) -> Seq<char> {
    joined(scan::lines(ddl).map_values(|l: Seq<char>| without_comment(l)))
}

/// The trimmed pieces of `s` between occurrences of `sep`, without empty ones.
pub open spec fn trimmed_pieces(s: Seq<char>, sep: Seq<char>) -> Seq<Seq<char>> {
    scan::pieces(s, sep).map_values(|p: Seq<char>| scan::trimmed(p)).filter(
        |p: Seq<char>| p.len() > 0,
    )
}

/// The texts of a run of strings.
pub open spec fn texts(strings: Seq<String>) -> Seq<Seq<char>> {
    strings.map_values(|s: String| s@)
}

/// The trimmed pieces of `s` between occurrences of `sep`, without empty ones.
fn trimmed_split(s: &Vec<char>, sep: &Vec<char>) -> (r: Vec<String>)
    requires
        sep.len() > 0,
    ensures
        texts(r@) == trimmed_pieces(s@, sep@),
{
    let parts: Vec<Vec<char>> = scan::split(s, sep);
    let ghost all = scan::pieces(s@, sep@).map_values(|p: Seq<char>| scan::trimmed(p));
    let ghost kept = |p: Seq<char>| p.len() > 0;
    let mut out: Vec<String> = Vec::new();
    let mut i: usize = 0;
    proof {
        reveal(Seq::filter);
        assert(all.take(0) =~= Seq::<Seq<char>>::empty());
        assert(texts(out@) =~= all.take(0).filter(kept));
    }
    while i < parts.len()
        invariant
            i <= parts.len(),
            scan::char_seqs(parts@) == scan::pieces(s@, sep@),
            all == scan::pieces(s@, sep@).map_values(|p: Seq<char>| scan::trimmed(p)),
            kept == (|p: Seq<char>| p.len() > 0),
            texts(out@) == all.take(i as int).filter(kept),
        decreases parts.len() - i,
    {
        let piece: Vec<char> = scan::trim(&parts[i]);
        proof {
            reveal(Seq::filter);
            assert(scan::char_seqs(parts@)[i as int] == parts@[i as int]@);
            assert(all[i as int] == piece@);
            assert(all.take(i + 1).drop_last() =~= all.take(i as int));
        }
        let ghost before = texts(out@);
        if piece.len() > 0 {
            let text: String = text::string_of(&piece, 0, piece.len());
            assert(text@ =~= piece@);
            out.push(text);
            assert(texts(out@) =~= before.push(piece@));
        }
        i = i + 1;
    }
    assert(scan::char_seqs(parts@).len() == parts@.len());
    assert(all.take(i as int) =~= all);
    out
}

/// The statements of a piece of DDL: comments are dropped, statements end at
/// semicolons, and empty ones are skipped.
pub fn split_statements(ddl: &str) -> (r: Vec<String>)
    ensures
        texts(r@) == trimmed_pieces(stripped(ddl@), ";"@),
{
    let cs: Vec<char> = text::chars_of(ddl);
    let lines: Vec<Vec<char>> = scan::lines_of(&cs);
    let dashes: Vec<char> = text::chars_of("--");
    let semicolon: Vec<char> = text::chars_of(";");
    proof {
        reveal_strlit("--");
        reveal_strlit(";");
    }
    let ghost cut = scan::lines(ddl@).map_values(|l: Seq<char>| without_comment(l));
    let mut plain: Vec<char> = Vec::new();
    let mut i: usize = 0;
    assert(cut.take(0) =~= Seq::<Seq<char>>::empty());
    while i < lines.len()
        invariant
            i <= lines.len(),
            scan::char_seqs(lines@) == scan::lines(ddl@),
            cut == scan::lines(ddl@).map_values(|l: Seq<char>| without_comment(l)),
            dashes@ == "--"@,
            dashes.len() > 0,
            plain@ == joined(cut.take(i as int)),
        decreases lines.len() - i,
    {
        let mut kept: Vec<char> = scan::before_first(&lines[i], &dashes);
        proof {
            assert(scan::char_seqs(lines@)[i as int] == lines@[i as int]@);
            assert(cut[i as int] == kept@);
            assert(cut.take(i + 1).drop_last() =~= cut.take(i as int));
            assert(cut.take(i + 1).last() == kept@);
        }
        let ghost before = plain@;
        let ghost line = kept@;
        if i > 0 {
            plain.push('\n');
        }
        plain.append(&mut kept);
        i = i + 1;
        proof {
            if i == 1 {
                assert(plain@ =~= line);
            } else {
                assert(plain@ =~= before.push('\n') + line);
            }
        }
    }
    proof {
        assert(scan::char_seqs(lines@).len() == lines@.len());
        assert(cut.take(i as int) =~= cut);
    }
    trimmed_split(&plain, &semicolon)
}

/// The statements of trigger DDL, which are set apart by `@@`.
pub fn split_triggers(ddl: &str) -> (r: Vec<String>)
    ensures
        texts(r@) == trimmed_pieces(ddl@, "@@"@),
{
    let cs: Vec<char> = text::chars_of(ddl);
    let mark: Vec<char> = text::chars_of("@@");
    proof {
        reveal_strlit("@@");
    }
    trimmed_split(&cs, &mark)
}

/// Whether the message of a failed statement says that what it adds is already
/// there.
pub open spec fn says_already_there(message: Seq<char>) -> bool {
    let m = scan::lower_text(message);
    ||| scan::holds(m, "duplicate column"@)
    ||| scan::holds(m, "already exists"@)
    ||| scan::holds(m, "duplicate"@)
    ||| scan::holds(m, "exists"@)
}

/// Whether a failed statement failed because the schema already has what it
/// adds, so that the failure can be ignored.
pub fn already_applied(message: &str) -> (r: bool)
    ensures
        r == says_already_there(message@),
{
    let lowered: String = scan::to_lower(message);
    let m: &str = lowered.as_str();
    scan::contains(m, "duplicate column") || scan::contains(m, "already exists") || scan::contains(
        m,
        "duplicate",
    ) || scan::contains(m, "exists")
}

/// The statements that bring a database to the current schema.
pub struct Migration {
    /// Create the tables. Each must succeed.
    pub tables: Vec<String>,
    /// Add what the hash chain and the as-of reads need. A failure that says that
    /// it is already there is ignored.
    pub additions: Vec<String>,
}

/// The statements that bring a database of `dialect` to the current schema:
/// none, unless migration is asked for.
pub fn migration(dialect: SqlDialect, auto_migrate: bool) -> (r: Migration)
    ensures
        texts(r.tables@) == if auto_migrate {
            trimmed_pieces(stripped(dialect::tables_ddl(dialect)), ";"@)
        } else {
            Seq::empty()
        },
        texts(r.additions@) == if auto_migrate {
            trimmed_pieces(stripped(dialect::additions_ddl(dialect)), ";"@)
        } else {
            Seq::empty()
        },
{
    if !auto_migrate {
        let r = Migration { tables: Vec::new(), additions: Vec::new() };
        assert(texts(r.tables@) =~= Seq::empty());
        assert(texts(r.additions@) =~= Seq::empty());
        return r;
    }
    Migration {
        tables: split_statements(dialect::migration_for(dialect)),
        additions: split_statements(dialect::worm_migration_for(dialect)),
    }
}

/// The statements that empty the tables, those that refer to others first.
pub fn truncation() -> (r: Vec<&'static str>)
    ensures
        r@.len() == 4,
        r@[0]@ == "DELETE FROM event_tags"@,
        r@[1]@ == "DELETE FROM event_journal"@,
        r@[2]@ == "DELETE FROM event_chain_heads"@,
        r@[3]@ == "DELETE FROM snapshot_store"@,
{
    vec![
        "DELETE FROM event_tags",
        "DELETE FROM event_journal",
        "DELETE FROM event_chain_heads",
        "DELETE FROM snapshot_store",
    ]
}

// ---------------------------------------------------------------------------
// Laws
// ---------------------------------------------------------------------------
/// The statements of a text are not empty, have no white space around them, and
/// do not hold the separator.
pub proof fn statements_are_trimmed_and_apart(s: Seq<char>, sep: Seq<char>, k: int)
    requires
        sep.len() > 0,
        0 <= k < trimmed_pieces(s, sep).len(),
    ensures
        ({
            let t = trimmed_pieces(s, sep)[k];
            &&& t.len() > 0
            &&& !scan::is_space(t[0])
            &&& !scan::is_space(t.last())
            &&& forall|i: int| !#[trigger] scan::occurs_at(t, sep, i)
        }),
{
    let parts = scan::pieces(s, sep);
    let all = parts.map_values(|p: Seq<char>| scan::trimmed(p));
    let kept = |p: Seq<char>| p.len() > 0;
    let t = all.filter(kept)[k];
    all.lemma_filter_pred(kept, k);
    assert(all.filter(kept).contains(t));
    all.lemma_filter_contains_rev(kept, t);
    let j = choose|j: int| 0 <= j < all.len() && all[j] == t;
    let p = parts[j];
    assert(t == scan::trimmed(p));
    scan::trimming_removes_the_ends(p);
    scan::splitting_loses_nothing(s, sep);
    let (from, to) = choose|from: int, to: int|
        {
            &&& 0 <= from <= to <= p.len()
            &&& scan::trimmed(p) == #[trigger] p.subrange(from, to)
            &&& forall|i: int| 0 <= i < from ==> scan::is_space(#[trigger] p[i])
            &&& forall|i: int| to <= i < p.len() ==> scan::is_space(#[trigger] p[i])
        };
    assert forall|i: int| !#[trigger] scan::occurs_at(t, sep, i) by {
        if scan::occurs_at(t, sep, i) {
            assert(t.subrange(i, i + sep.len()) =~= p.subrange(from + i, from + i + sep.len()));
            assert(scan::occurs_at(p, sep, from + i));
        }
    }
}

/// Every piece that holds more than white space is a statement.
pub proof fn no_statement_is_left_out(s: Seq<char>, sep: Seq<char>, j: int)
    requires
        0 <= j < scan::pieces(s, sep).len(),
        scan::trimmed(scan::pieces(s, sep)[j]).len() > 0,
    ensures
        trimmed_pieces(s, sep).contains(scan::trimmed(scan::pieces(s, sep)[j])),
{
    let all = scan::pieces(s, sep).map_values(|p: Seq<char>| scan::trimmed(p));
    all.lemma_filter_contains(|p: Seq<char>| p.len() > 0, j);
}

/// A line is kept up to its first two dashes, and whole where it has none.
pub proof fn comments_are_cut_off(line: Seq<char>)
    ensures
        without_comment(line).is_prefix_of(line),
        forall|i: int| !#[trigger] scan::occurs_at(without_comment(line), "--"@, i),
        (forall|i: int| !#[trigger] scan::occurs_at(line, "--"@, i)) ==> without_comment(line)
            == line,
        without_comment(line).len() < line.len() ==> scan::occurs_at(
            line,
            "--"@,
            without_comment(line).len() as int,
        ),
{
    let dashes = "--"@;
    reveal_strlit("--");
    scan::lemma_first_occurrence_bound(line, dashes);
    scan::lemma_nothing_before(line, dashes);
    let n = scan::first_occurrence(line, dashes);
    let kept = without_comment(line);
    assert forall|i: int| !#[trigger] scan::occurs_at(kept, dashes, i) by {
        if scan::occurs_at(kept, dashes, i) {
            assert(kept.subrange(i, i + dashes.len()) =~= line.subrange(i, i + dashes.len()));
            assert(scan::occurs_at(line, dashes, i));
        }
    }
    if n == line.len() {
        assert(kept =~= line);
    }
}

/// A failure is taken for a repeated migration exactly if its message holds, in
/// upper or lower case, the word for a duplicate or for something that exists.
pub proof fn repetitions_are_told_by_their_message(message: Seq<char>)
    ensures
        says_already_there(message) <==> scan::holds(scan::lower_text(message), "duplicate"@)
            || scan::holds(scan::lower_text(message), "exists"@),
{
    let m = scan::lower_text(message);
    reveal_strlit("duplicate column");
    reveal_strlit("already exists");
    reveal_strlit("duplicate");
    reveal_strlit("exists");
    if scan::holds(m, "duplicate column"@) {
        let i = choose|i: int| scan::occurs_at(m, "duplicate column"@, i);
        assert("duplicate column"@.take(9) =~= "duplicate"@);
        assert(m.subrange(i, i + 9) =~= m.subrange(i, i + 16).take(9));
        assert(scan::occurs_at(m, "duplicate"@, i));
    }
    if scan::holds(m, "already exists"@) {
        let i = choose|i: int| scan::occurs_at(m, "already exists"@, i);
        assert("already exists"@.skip(8) =~= "exists"@);
        assert(m.subrange(i + 8, i + 14) =~= m.subrange(i, i + 14).skip(8));
        assert(scan::occurs_at(m, "exists"@, i + 8));
    }
}

/// Lines are joined by one line feed between each two of them.
pub proof fn lines_are_joined_by_line_feeds(lines: Seq<Seq<char>>, line: Seq<char>)
    ensures
        joined(Seq::empty()).len() == 0,
        joined(seq![line]) == line,
        lines.len() > 0 ==> joined(lines.push(line)) == joined(lines) + seq!['\n'] + line,
{
    assert(lines.push(line).drop_last() =~= lines);
    if lines.len() > 0 {
        assert(joined(lines).push('\n') + line =~= joined(lines) + seq!['\n'] + line);
    }
}

} // verus!
