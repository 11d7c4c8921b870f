//! The command grammar, over the tokens of a command line:
//!
//! - `SELECT * FROM <table>`
//! - `INSERT INTO <table> VALUES ( <v> , ... )`
//! - `CREATE TABLE <name> ( <column> <INTEGER|TEXT> , ... )`
//!
//! Keywords and type names may be written in any case. Anything else is an
//! unknown command carrying the raw text.
use vstd::prelude::*;

use crate::command::Command;
use crate::engine::{Column, ColumnView, DataType};
use crate::lexer::{tokenize, tokens, views};

verus! {

/// The value of a command.
pub enum CommandView {
    CreateTable { name: Seq<char>, columns: Seq<ColumnView> },
    Insert { table: Seq<char>, values: Seq<Seq<char>> },
    Select { table: Seq<char> },
    Unknown(Seq<char>),
}

impl View for Command {
    type V = CommandView;

    open spec fn view(&self) -> CommandView {
        match self {
            Command::CreateTable { name, columns } => CommandView::CreateTable {
                name: name@,
                columns: columns@.map_values(|c: Column| c@),
            },
            Command::Insert { table, values } => CommandView::Insert {
                table: table@,
                values: views(values@),
            },
            Command::Select { table } => CommandView::Select { table: table@ },
            Command::Unknown(text) => CommandView::Unknown(text@),
        }
    }
}

/// A token that is not punctuation: a name or a value.
pub open spec fn is_word(t: Seq<char>) -> bool {
    t != seq!['('] && t != seq![')'] && t != seq![',']
}

/// `c` is the upper-case letter `k`, or the same letter in lower case, or
/// the same character.
pub open spec fn same_letter(c: char, k: char) -> bool {
    c == k || ('a' <= c <= 'z' && c as u32 == k as u32 + 32)
}

/// A token spells the upper-case keyword `k`, in any case.
pub open spec fn keyword_is(t: Seq<char>, k: Seq<char>) -> bool {
    t.len() == k.len() && forall|i: int| 0 <= i < t.len() ==> same_letter(t[i], k[i])
}

/// The column type a token names.
pub open spec fn type_of(t: Seq<char>) -> Option<DataType> {
    if keyword_is(t, "INTEGER"@) {
        Some(DataType::Integer)
    } else if keyword_is(t, "TEXT"@) {
        Some(DataType::Text)
    } else {
        None
    }
}

/// `v , v , ... , v` with at least one value.
pub open spec fn value_list(t: Seq<Seq<char>>) -> Option<Seq<Seq<char>>>
    decreases t.len(),
{
    if t.len() == 0 || !is_word(t[0]) {
        None
    } else if t.len() == 1 {
        Some(seq![t[0]])
    } else if t.len() >= 3 && t[1] == seq![','] {
        match value_list(t.subrange(2, t.len() as int)) {
            Some(rest) => Some(seq![t[0]] + rest),
            None => None,
        }
    } else {
        None
    }
}

/// `name type , ... , name type` with at least one column.
pub open spec fn column_list(t: Seq<Seq<char>>) -> Option<Seq<ColumnView>>
    decreases t.len(),
{
    if t.len() < 2 || !is_word(t[0]) || type_of(t[1]) is None {
        None
    } else {
        let c = ColumnView { name: t[0], data_type: type_of(t[1]).unwrap() };
        if t.len() == 2 {
            Some(seq![c])
        } else if t.len() >= 5 && t[2] == seq![','] {
            match column_list(t.subrange(3, t.len() as int)) {
                Some(rest) => Some(seq![c] + rest),
                None => None,
            }
        } else {
            None
        }
    }
}

/// The command that a line of tokens states; `text` is the raw line.
pub open spec fn parse_tokens(t: Seq<Seq<char>>, text: Seq<char>) -> CommandView {
    let n = t.len() as int;
    if n == 4 && keyword_is(t[0], "SELECT"@) && keyword_is(t[1], "*"@) && keyword_is(
        t[2],
        "FROM"@,
    ) && is_word(t[3]) {
        CommandView::Select { table: t[3] }
    } else if n >= 6 && keyword_is(t[0], "INSERT"@) && keyword_is(t[1], "INTO"@) && is_word(t[2])
        && keyword_is(t[3], "VALUES"@) && t[4] == seq!['('] && t[n - 1] == seq![')'] {
        if n == 6 {
            CommandView::Insert { table: t[2], values: Seq::empty() }
        } else {
            match value_list(t.subrange(5, n - 1)) {
                Some(values) => CommandView::Insert { table: t[2], values },
                None => CommandView::Unknown(text),
            }
        }
    } else if n >= 5 && keyword_is(t[0], "CREATE"@) && keyword_is(t[1], "TABLE"@) && is_word(t[2])
        && t[3] == seq!['('] && t[n - 1] == seq![')'] {
        if n == 5 {
            CommandView::CreateTable { name: t[2], columns: Seq::empty() }
        } else {
            match column_list(t.subrange(4, n - 1)) {
                Some(columns) => CommandView::CreateTable { name: t[2], columns },
                None => CommandView::Unknown(text),
            }
        }
    } else {
        CommandView::Unknown(text)
    }
}

fn token_is(t: &String, k: &str) -> (r: bool)
    ensures
        r == (t@ == k@),
{
    *t == String::from_str(k)
}

fn token_is_keyword(t: &String, k: &str) -> (r: bool)
    ensures
        r == keyword_is(t@, k@),
{
    let ts = t.as_str();
    let n = ts.unicode_len();
    if n != k.unicode_len() {
        return false;
    }
    let mut i: usize = 0;
    while i < n
        invariant
            n == ts@.len(),
            n == k@.len(),
            ts@ == t@,
            i <= n,
            forall|j: int| 0 <= j < i ==> same_letter(t@[j], k@[j]),
        decreases n - i,
    {
        let c = ts.get_char(i);
        let d = k.get_char(i);
        if !(c == d || ('a' <= c && c <= 'z' && c as u32 == d as u32 + 32)) {
            return false;
        }
        i = i + 1;
    }
    true
}

fn token_is_word(t: &String) -> (r: bool)
    ensures
        r == is_word(t@),
{
    proof {
        reveal_strlit("(");
        reveal_strlit(")");
        reveal_strlit(",");
    }
    assert("("@ =~= seq!['(']);
    assert(")"@ =~= seq![')']);
    assert(","@ =~= seq![',']);
    !token_is(t, "(") && !token_is(t, ")") && !token_is(t, ",")
}

fn token_is_punct(t: &String, c: char) -> (r: bool)
    requires
        c == '(' || c == ')' || c == ',',
    ensures
        r == (t@ == seq![c]),
{
    proof {
        reveal_strlit("(");
        reveal_strlit(")");
        reveal_strlit(",");
    }
    assert("("@ =~= seq!['(']);
    assert(")"@ =~= seq![')']);
    assert(","@ =~= seq![',']);
    if c == '(' {
        token_is(t, "(")
    } else if c == ')' {
        token_is(t, ")")
    } else {
        token_is(t, ",")
    }
}

/// The values of `toks[from..to]`.
fn parse_values(toks: &Vec<String>, from: usize, to: usize) -> (r: Option<Vec<String>>)
    requires
        from <= to <= toks@.len(),
    ensures
        r is None <==> value_list(views(toks@).subrange(from as int, to as int)) is None,
        r matches Some(vs) ==> value_list(views(toks@).subrange(from as int, to as int)) == Some(
            views(vs@),
        ),
    decreases to - from,
{
    let ghost t = views(toks@).subrange(from as int, to as int);
    if from == to || !token_is_word(&toks[from]) {
        return None;
    }
    assert(t[0] == toks@[from as int]@);
    if to - from == 1 {
        let v = vec![toks[from].clone()];
        assert(views(v@) =~= seq![t[0]]);
        return Some(v);
    }
    if to - from >= 3 && token_is_punct(&toks[from + 1], ',') {
        assert(t[1] == toks@[from + 1]@);
        assert(t.subrange(2, t.len() as int) =~= views(toks@).subrange(from + 2, to as int));
        match parse_values(toks, from + 2, to) {
            Some(rest) => {
                let mut vs = rest;
                let ghost tail = vs@;
                vs.insert(0, toks[from].clone());
                assert(views(vs@) =~= seq![t[0]] + views(tail));
                Some(vs)
            },
            None => None,
        }
    } else {
        assert(to - from >= 3 ==> t[1] == toks@[from + 1]@);
        None
    }
}

/// The column type named by a token.
fn parse_type(t: &String) -> (r: Option<DataType>)
    ensures
        r == type_of(t@),
{
    if token_is_keyword(t, "INTEGER") {
        Some(DataType::Integer)
    } else if token_is_keyword(t, "TEXT") {
        Some(DataType::Text)
    } else {
        None
    }
}

/// The columns of `toks[from..to]`.
fn parse_columns(toks: &Vec<String>, from: usize, to: usize) -> (r: Option<Vec<Column>>)
    requires
        from <= to <= toks@.len(),
    ensures
        r is None <==> column_list(views(toks@).subrange(from as int, to as int)) is None,
        r matches Some(cs) ==> column_list(views(toks@).subrange(from as int, to as int))
            == Some(cs@.map_values(|c: Column| c@)),
    decreases to - from,
{
    let ghost t = views(toks@).subrange(from as int, to as int);
    if to - from < 2 || !token_is_word(&toks[from]) {
        return None;
    }
    assert(t[0] == toks@[from as int]@);
    assert(t[1] == toks@[from + 1]@);
    let data_type = match parse_type(&toks[from + 1]) {
        Some(d) => d,
        None => return None,
    };
    let col = Column { name: toks[from].clone(), data_type };
    if to - from == 2 {
        let v = vec![col];
        assert(v@.map_values(|c: Column| c@) =~= seq![col@]);
        return Some(v);
    }
    if to - from >= 5 && token_is_punct(&toks[from + 2], ',') {
        assert(t[2] == toks@[from + 2]@);
        assert(t.subrange(3, t.len() as int) =~= views(toks@).subrange(from + 3, to as int));
        match parse_columns(toks, from + 3, to) {
            Some(rest) => {
                let mut cs = rest;
                let ghost tail = cs@;
                cs.insert(0, col);
                assert(cs@.map_values(|c: Column| c@) =~= seq![col@] + tail.map_values(
                    |c: Column| c@,
                ));
                Some(cs)
            },
            None => None,
        }
    } else {
        assert(to - from >= 5 ==> t[2] == toks@[from + 2]@);
        None
    }
}


/// The command that a line of tokens states.
fn parse_line_tokens(toks: &Vec<String>, text: &str) -> (r: Command)
    ensures
        r@ == parse_tokens(views(toks@), text@),
{
    let ghost t = views(toks@);
    let n = toks.len();
    if n == 4 && token_is_keyword(&toks[0], "SELECT") && token_is_keyword(&toks[1], "*")
        && token_is_keyword(&toks[2], "FROM") && token_is_word(&toks[3]) {
        return Command::Select { table: toks[3].clone() };
    }
    if n >= 6 && token_is_keyword(&toks[0], "INSERT") && token_is_keyword(&toks[1], "INTO")
        && token_is_word(&toks[2]) && token_is_keyword(&toks[3], "VALUES") && token_is_punct(&toks[4], '(') && token_is_punct(
        &toks[n - 1],
        ')',
    ) {
        if n == 6 {
            let values: Vec<String> = Vec::new();
            assert(views(values@) =~= Seq::<Seq<char>>::empty());
            return Command::Insert { table: toks[2].clone(), values };
        }
        assert(t.subrange(5, n - 1) =~= views(toks@).subrange(5, n - 1));
        return match parse_values(toks, 5, n - 1) {
            Some(values) => Command::Insert { table: toks[2].clone(), values },
            None => Command::Unknown(String::from_str(text)),
        };
    }
    if n >= 5 && token_is_keyword(&toks[0], "CREATE") && token_is_keyword(&toks[1], "TABLE")
        && token_is_word(&toks[2]) && token_is_punct(&toks[3], '(') && token_is_punct(
        &toks[n - 1],
        ')',
    ) {
        if n == 5 {
            let columns: Vec<Column> = Vec::new();
            assert(columns@.map_values(|c: Column| c@) =~= Seq::<ColumnView>::empty());
            return Command::CreateTable { name: toks[2].clone(), columns };
        }
        return match parse_columns(toks, 4, n - 1) {
            Some(columns) => Command::CreateTable { name: toks[2].clone(), columns },
            None => Command::Unknown(String::from_str(text)),
        };
    }
    Command::Unknown(String::from_str(text))
}

/// The command that a line of text states.
pub fn parse_command(text: &str) -> (r: Command)
    ensures
        r@ == parse_tokens(tokens(text@), text@),
{
    let toks = tokenize(text);
    parse_line_tokens(&toks, text)
}

} // verus!
