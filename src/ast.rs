//! The syntax tree and its evaluation into SQL text.
use vstd::prelude::*;
use vstd::string::StringExecFns;

verus! {

/// A name: a table or a column.
pub struct IdentifierStatement {
    pub literal: String,
}

/// A braced list of column names, in source order.
pub struct BlockStatement {
    pub properties: Vec<IdentifierStatement>,
}

/// A query: `.table { columns }`.
pub struct DotStatement {
    pub ident: IdentifierStatement,
    pub block: BlockStatement,
}

/// The closed set of statement kinds.
pub enum Statement {
    Dot(DotStatement),
    Block(BlockStatement),
    Identifier(IdentifierStatement),
}

/// A statement as a mathematical value.
pub enum StatementModel {
    Query { table: Seq<char>, columns: Seq<Seq<char>> },
    Block { columns: Seq<Seq<char>> },
    Identifier { name: Seq<char> },
}

impl View for IdentifierStatement {
    type V = Seq<char>;

    open spec fn view(&self) -> Seq<char> {
        self.literal@
    }
}

impl View for BlockStatement {
    type V = Seq<Seq<char>>;

    open spec fn view(&self) -> Seq<Seq<char>> {
        self.properties@.map_values(|p: IdentifierStatement| p@)
    }
}

impl View for DotStatement {
    type V = StatementModel;

    open spec fn view(&self) -> StatementModel {
        StatementModel::Query { table: self.ident@, columns: self.block@ }
    }
}

impl View for Statement {
    type V = StatementModel;

    open spec fn view(&self) -> StatementModel {
        match self {
            Statement::Dot(d) => d@,
            Statement::Block(b) => StatementModel::Block { columns: b@ },
            Statement::Identifier(i) => StatementModel::Identifier { name: i@ },
        }
    }
}

/// The parts, in order, with `sep` between each two neighbours.
pub open spec fn join(parts: Seq<Seq<char>>, sep: Seq<char>) -> Seq<char>
    decreases parts.len(),
{
    if parts.len() == 0 {
        Seq::empty()
    } else if parts.len() == 1 {
        parts[0]
    } else {
        join(parts.drop_last(), sep) + sep + parts.last()
    }
}

/// The SQL column list of a block.
pub open spec fn block_sql(columns: Seq<Seq<char>>) -> Seq<char> {
    join(columns, ", "@)
}

/// The SQL text of a query; an empty column list selects every column.
pub open spec fn query_sql(table: Seq<char>, columns: Seq<Seq<char>>) -> Seq<char> {
    if block_sql(columns).len() == 0 {
        "SELECT * FROM "@ + table + ";"@
    } else {
        "SELECT "@ + block_sql(columns) + " FROM "@ + table + ";"@
    }
}

pub open spec fn statement_sql(m: StatementModel) -> Seq<char> {
    match m {
        StatementModel::Query { table, columns } => query_sql(table, columns),
        StatementModel::Block { columns } => block_sql(columns),
        StatementModel::Identifier { name } => name,
    }
}

/// The SQL text of a program: its statements' texts joined by one space.
pub open spec fn program_sql(statements: Seq<StatementModel>) -> Seq<char> {
    join(statements.map_values(|m: StatementModel| statement_sql(m)), " "@)
}

/// Appending one more part to a join.
pub proof fn lemma_join_push(parts: Seq<Seq<char>>, sep: Seq<char>, x: Seq<char>)
    ensures
        join(parts.push(x), sep) == if parts.len() == 0 {
            x
        } else {
            join(parts, sep) + sep + x
        },
{
    assert(parts.push(x).drop_last() =~= parts);
}

impl IdentifierStatement {
    pub fn eval(&self) -> (r: String)
        ensures
            r@ == self@,
    {
        self.literal.clone()
    }
}

impl BlockStatement {
    pub fn eval(&self) -> (r: String)
        ensures
            r@ == block_sql(self@),
    {
        let mut out = String::new();
        let mut i: usize = 0;
        while i < self.properties.len()
            invariant
                i <= self.properties.len(),
                out@ == block_sql(self@.take(i as int)),
            decreases self.properties.len() - i,
        {
            let part = self.properties[i].eval();
            proof {
                lemma_join_push(self@.take(i as int), ", "@, part@);
                assert(self@.take(i as int).push(part@) =~= self@.take(i + 1));
            }
            if i > 0 {
                out.append(", ");
            }
            out.append(part.as_str());
            i = i + 1;
        }
        assert(self@.take(i as int) =~= self@);
        out
    }
}

impl DotStatement {
    pub fn eval(&self) -> (r: String)
        ensures
            r@ == query_sql(self.ident@, self.block@),
    {
        let columns = self.block.eval();
        let table = self.ident.eval();
        if columns.as_str().is_empty() {
            let mut out = String::from_str("SELECT * FROM ");
            out.append(table.as_str());
            out.append(";");
            out
        } else {
            let mut out = String::from_str("SELECT ");
            out.append(columns.as_str());
            out.append(" FROM ");
            out.append(table.as_str());
            out.append(";");
            out
        }
    }
}

impl Statement {
    pub fn eval(&self) -> (r: String)
        ensures
            r@ == statement_sql(self@),
    {
        match self {
            Statement::Dot(d) => d.eval(),
            Statement::Block(b) => b.eval(),
            Statement::Identifier(i) => i.eval(),
        }
    }
}

} // verus!
