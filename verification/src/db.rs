//! The library's records, and the text of the queries that read them.
//!
//! The database itself is SQLite; opening it and running statements is
//! I/O and lives with the program around this library. What is decided
//! here is what a game, a save, a session and a BIOS file are, and the SQL
//! each listing sends.

use vstd::prelude::*;
use crate::text::{chars_of, dec, decimal, push_chars, push_str, string_from_chars};
use crate::path::join;

verus! {

broadcast use vstd::string::group_string_axioms;

/// A shelved game as the interface sees it.
#[derive(Debug, Clone)]
pub struct Game {
    pub id: i64,
    pub title: String,
    pub system: String,
    pub path: String,
    pub hash: Option<String>,
    pub size: Option<i64>,
    pub status: String,
    pub core: Option<String>,
    pub art: Option<String>,
    pub created_at: i64,
    pub updated_at: i64,
    /// Seconds of recorded play time (from sessions), 0 if never played.
    pub playtime: i64,
    /// Unix time of the most recent session, if any.
    pub last_played: Option<i64>,
}

/// A save (battery save or state) attached to a game.
#[derive(Debug, Clone)]
pub struct Save {
    pub id: i64,
    pub game_id: i64,
    pub kind: String,
    pub path: String,
    pub created_at: i64,
}

/// A play session: a launch that ran (or is running).
#[derive(Debug, Clone)]
pub struct Session {
    pub id: i64,
    pub game_id: i64,
    pub started: i64,
    pub duration_seconds: Option<i64>,
}

/// A BIOS file recognised by hash during intake and filed automatically.
#[derive(Debug, Clone)]
pub struct Bios {
    pub id: i64,
    pub name: String,
    pub path: String,
    pub hash: String,
    pub created_at: i64,
}

/// A signed integer in decimal.
pub open spec fn signed_dec(n: int) -> Seq<char> {
    if n < 0 {
        seq!['-'] + dec((-n) as nat)
    } else {
        dec(n as nat)
    }
}

pub fn signed_decimal(n: i64) -> (r: Vec<char>)
    ensures
        r@ == signed_dec(n as int),
{
    if n < 0 {
        let m: i128 = 0i128 - (n as i128);
        assert(0 < m <= 0x8000_0000_0000_0000);
        let mut v: Vec<char> = Vec::new();
        v.push('-');
        let d = decimal(m as u64);
        push_chars(&mut v, &d);
        v
    } else {
        decimal(n as u64)
    }
}

/// The columns a game row is read from, under a table alias: the stored
/// fields, then the play time summed over its sessions, then its latest
/// session.
pub open spec fn game_columns_spec(a: Seq<char>) -> Seq<char> {
    a + ".id, "@ + a + ".title, "@ + a + ".system, "@ + a + ".path, "@ + a + ".hash, "@ + a + ".size, "@ + a
        + ".status, "@ + a + ".core, "@ + a + ".art, "@ + a + ".created_at, "@ + a + ".updated_at, "@
        + "COALESCE((SELECT SUM(s.duration_seconds) FROM sessions s WHERE s.game_id = "@ + a + ".id), 0), "@
        + "(SELECT MAX(s.started) FROM sessions s WHERE s.game_id = "@ + a + ".id)"@
}

pub fn game_columns(alias: &str) -> (r: String)
    ensures
        r@ == game_columns_spec(alias@),
{
    let a = chars_of(alias);
    let mut v: Vec<char> = Vec::new();
    push_chars(&mut v, &a);
    push_str(&mut v, ".id, ");
    push_chars(&mut v, &a);
    push_str(&mut v, ".title, ");
    push_chars(&mut v, &a);
    push_str(&mut v, ".system, ");
    push_chars(&mut v, &a);
    push_str(&mut v, ".path, ");
    push_chars(&mut v, &a);
    push_str(&mut v, ".hash, ");
    push_chars(&mut v, &a);
    push_str(&mut v, ".size, ");
    push_chars(&mut v, &a);
    push_str(&mut v, ".status, ");
    push_chars(&mut v, &a);
    push_str(&mut v, ".core, ");
    push_chars(&mut v, &a);
    push_str(&mut v, ".art, ");
    push_chars(&mut v, &a);
    push_str(&mut v, ".created_at, ");
    push_chars(&mut v, &a);
    push_str(&mut v, ".updated_at, ");
    push_str(&mut v, "COALESCE((SELECT SUM(s.duration_seconds) FROM sessions s WHERE s.game_id = ");
    push_chars(&mut v, &a);
    push_str(&mut v, ".id), 0), ");
    push_str(&mut v, "(SELECT MAX(s.started) FROM sessions s WHERE s.game_id = ");
    push_chars(&mut v, &a);
    push_str(&mut v, ".id)");
    string_from_chars(&v)
}

/// The select of every game column from `games g`, then a clause.
pub open spec fn row_sql_spec(where_clause: Seq<char>) -> Seq<char> {
    "SELECT "@ + game_columns_spec("g"@) + " FROM games g "@ + where_clause
}

pub fn row_sql(where_clause: &str) -> (r: String)
    ensures
        r@ == row_sql_spec(where_clause@),
{
    let mut v: Vec<char> = Vec::new();
    push_str(&mut v, "SELECT ");
    let cols = game_columns("g");
    push_str(&mut v, cols.as_str());
    push_str(&mut v, " FROM games g ");
    push_str(&mut v, where_clause);
    string_from_chars(&v)
}

/// A statement and the text arguments bound to its numbered parameters.
pub struct Query {
    pub sql: String,
    pub args: Vec<String>,
}

/// The character a listing's pattern escapes its literal `%`, `_` and `\`
/// with.
pub open spec fn like_special(c: char) -> bool {
    c == '\\' || c == '%' || c == '_'
}

/// One character of a search term, as the pattern holds it.
pub open spec fn escape_char(c: char) -> Seq<char> {
    if like_special(c) {
        seq!['\\', c]
    } else {
        seq![c]
    }
}

/// A search term with every `%`, `_` and `\` escaped, so a pattern holds it
/// as written rather than as wildcards.
pub open spec fn like_escaped(s: Seq<char>) -> Seq<char>
    decreases s.len(),
{
    if s.len() == 0 {
        Seq::<char>::empty()
    } else {
        like_escaped(s.drop_last()) + escape_char(s.last())
    }
}

/// The text a `LIKE` pattern with `\` as its escape matches character for
/// character, read from the front: an escaped character stands for itself;
/// there is none when the pattern holds a wildcard or ends in a lone `\`.
pub open spec fn like_literal(p: Seq<char>) -> Option<Seq<char>>
    decreases p.len(),
{
    if p.len() == 0 {
        Some(Seq::<char>::empty())
    } else if p[0] == '\\' {
        if p.len() < 2 {
            None
        } else {
            match like_literal(p.skip(2)) {
                Some(t) => Some(seq![p[1]] + t),
                None => None,
            }
        }
    } else if p[0] == '%' || p[0] == '_' {
        None
    } else {
        match like_literal(p.skip(1)) {
            Some(t) => Some(seq![p[0]] + t),
            None => None,
        }
    }
}

proof fn lemma_like_escaped_front(s: Seq<char>)
    requires
        s.len() > 0,
    ensures
        like_escaped(s) == escape_char(s[0]) + like_escaped(s.skip(1)),
    decreases s.len(),
{
    if s.len() == 1 {
        assert(s.drop_last().len() == 0);
        assert(s.skip(1).len() == 0);
        assert(like_escaped(s.drop_last()) =~= Seq::<char>::empty());
        assert(like_escaped(s.skip(1)) =~= Seq::<char>::empty());
        assert(s.last() == s[0]);
        assert(like_escaped(s) =~= escape_char(s[0]));
    } else {
        lemma_like_escaped_front(s.drop_last());
        assert(s.drop_last()[0] == s[0]);
        assert(s.skip(1).drop_last() =~= s.drop_last().skip(1));
        assert(s.skip(1).last() == s.last());
        assert(like_escaped(s) =~= escape_char(s[0]) + like_escaped(s.skip(1)));
    }
}

/// A search term is matched as written: the pattern a listing sends reads
/// back, escape by escape, as exactly the term, with no wildcard of its
/// own.
pub proof fn lemma_the_term_is_matched_as_written(s: Seq<char>)
    ensures
        like_literal(like_escaped(s)) == Some(s),
    decreases s.len(),
{
    if s.len() > 0 {
        lemma_like_escaped_front(s);
        lemma_the_term_is_matched_as_written(s.skip(1));
        let p = like_escaped(s);
        let rest = like_escaped(s.skip(1));
        if like_special(s[0]) {
            assert(p[0] == '\\' && p[1] == s[0]);
            assert(p.skip(2) =~= rest);
        } else {
            assert(p[0] == s[0]);
            assert(p.skip(1) =~= rest);
        }
        assert(seq![s[0]] + s.skip(1) =~= s);
    }
}

fn push_escaped(out: &mut Vec<char>, s: &str)
    ensures
        final(out)@ == old(out)@ + like_escaped(s@),
{
    let c = chars_of(s);
    let ghost start = out@;
    let mut i: usize = 0;
    assert(c@.take(0) =~= Seq::<char>::empty());
    while i < c.len()
        invariant
            i <= c@.len(),
            c@ == s@,
            out@ == start + like_escaped(c@.take(i as int)),
        decreases c@.len() - i,
    {
        let ch = c[i];
        if ch == '\\' || ch == '%' || ch == '_' {
            out.push('\\');
        }
        out.push(ch);
        assert(c@.take(i + 1).drop_last() =~= c@.take(i as int));
        assert(c@.take(i + 1).last() == ch);
        assert(out@ =~= start + like_escaped(c@.take(i + 1)));
        i += 1;
    }
    assert(c@.take(c@.len() as int) =~= c@);
}

/// The listing of games: every game when the filter is empty, otherwise
/// those whose title holds it as written; only one system's when one is
/// named; by title, ignoring case.
pub open spec fn list_games_sql(filter: Seq<char>, system: bool) -> Seq<char> {
    let base = if filter.len() == 0 {
        row_sql_spec(""@)
    } else {
        row_sql_spec("WHERE g.title LIKE ?1 ESCAPE '\\'"@)
    };
    let with_system = if system {
        base + (if filter.len() == 0 {
            " WHERE "@
        } else {
            " AND "@
        }) + "g.system = ?"@ + (if filter.len() == 0 {
            "1"@
        } else {
            "2"@
        })
    } else {
        base
    };
    with_system + " ORDER BY g.title COLLATE NOCASE"@
}

/// The arguments of the listing: the filter, escaped, inside `%` wildcards
/// when there is one, then the system when there is one.
pub open spec fn list_games_args(filter: Seq<char>, system: Option<Seq<char>>) -> Seq<Seq<char>> {
    let a = if filter.len() == 0 {
        Seq::<Seq<char>>::empty()
    } else {
        seq!["%"@ + like_escaped(filter) + "%"@]
    };
    match system {
        Some(s) => a.push(s),
        None => a,
    }
}

pub fn list_games_query(filter: &str, system: Option<&str>) -> (r: Query)
    ensures
        r.sql@ == list_games_sql(filter@, system is Some),
        r.args@.map_values(|s: String| s@) == list_games_args(
            filter@,
            match system {
                Some(s) => Some(s@),
                None => None,
            },
        ),
{
    let empty = filter.is_empty();
    let mut sql: Vec<char> = Vec::new();
    let mut args: Vec<String> = Vec::new();
    if empty {
        let base = row_sql("");
        push_str(&mut sql, base.as_str());
    } else {
        let base = row_sql("WHERE g.title LIKE ?1 ESCAPE '\\'");
        push_str(&mut sql, base.as_str());
        let mut pat: Vec<char> = Vec::new();
        pat.push('%');
        push_escaped(&mut pat, filter);
        pat.push('%');
        args.push(string_from_chars(&pat));
        assert(pat@ =~= "%"@ + like_escaped(filter@) + "%"@) by {
            reveal_strlit("%");
        }
    }
    let ghost a0 = args@.map_values(|s: String| s@);
    assert(a0 =~= (if filter@.len() == 0 {
        Seq::<Seq<char>>::empty()
    } else {
        seq!["%"@ + like_escaped(filter@) + "%"@]
    }));
    if let Some(s) = system {
        if empty {
            push_str(&mut sql, " WHERE ");
        } else {
            push_str(&mut sql, " AND ");
        }
        push_str(&mut sql, "g.system = ?");
        if empty {
            push_str(&mut sql, "1");
        } else {
            push_str(&mut sql, "2");
        }
        args.push(s.to_owned());
        assert(args@.map_values(|s: String| s@) =~= a0.push(s@));
    }
    push_str(&mut sql, " ORDER BY g.title COLLATE NOCASE");
    Query { sql: string_from_chars(&sql), args }
}

/// The seconds a session lasted, never less than zero.
pub fn session_duration(now: i64, started: i64) -> (r: i64)
    requires
        i64::MIN <= now - started <= i64::MAX,
    ensures
        r == if now - started > 0 {
            now - started
        } else {
            0
        },
{
    let d = now - started;
    if d > 0 {
        d
    } else {
        0
    }
}

/// The shelf folder a game's file sits in: the file's parent, or `.` when
/// the path has none.
pub fn game_dir(path: &str) -> (r: String)
    ensures
        r@ == match crate::locate::std_parent(path@) {
            Some(d) => d,
            None => "."@,
        },
{
    match crate::locate::parent(path) {
        Some(d) => d,
        None => ".".to_owned(),
    }
}

} // verus!
