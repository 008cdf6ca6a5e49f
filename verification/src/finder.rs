//! The walk over the statements of a program that gives the strings taken for SQL.

use vstd::prelude::*;
use crate::ast::Expr;
use crate::ast::Stmt;
use crate::config::FinderConfig;
use crate::flatten::Binding;
use crate::flatten::binding_views;
use crate::flatten::flatten;
use crate::flatten::flatten_target;
use crate::flatten::target_of;
use crate::preanalysis::PreanalyzedFile;
use crate::preanalysis::ignores;
use crate::resolve::known;
use crate::resolve::name_of_call;
use crate::resolve::qualifying_name;
use crate::resolve::resolve;
use crate::resolve::resolve_all;
use crate::resolve::resolve_text;
use crate::resolve::resolve_values;
use crate::resolve::string_views;

verus! {

/// A string that is taken for SQL, with the name that it was found under.
#[derive(Debug, PartialEq, Eq)]
pub struct SqlContext {
    pub variable_name: String,
    pub sql_content: String,
}

impl View for SqlContext {
    type V = (Seq<char>, Seq<char>);

    open spec fn view(&self) -> (Seq<char>, Seq<char>) {
        (self.variable_name@, self.sql_content@)
    }
}

/// The names and texts of a list of contexts.
pub open spec fn context_views(cs: Seq<SqlContext>) -> Seq<(Seq<char>, Seq<char>)> {
    cs.map_values(|c: SqlContext| c@)
}

/// One context under `name` for each of the first `n` texts that is long enough.
pub open spec fn named_contexts(
    name: Seq<char>,
    found: Seq<Seq<char>>,
    cfg: FinderConfig,
    n: int,
) -> Seq<(Seq<char>, Seq<char>)>
    decreases n,
{
    if n <= 0 || n > found.len() {
        seq![]
    } else {
        named_contexts(name, found, cfg, n - 1) + if cfg.long_enough(found[n - 1].len()) {
            seq![(name, found[n - 1])]
        } else {
            seq![]
        }
    }
}

/// The contexts that a name bound to a value gives: none unless the policy lists the
/// name as a variable, else one for each string that the value gives.
pub open spec fn binding_contexts(name: Seq<char>, value: Expr, cfg: FinderConfig) -> Seq<
    (Seq<char>, Seq<char>),
> {
    if cfg.names_variable(name) {
        named_contexts(
            name,
            resolve_values(value, cfg),
            cfg,
            resolve_values(value, cfg).len() as int,
        )
    } else {
        seq![]
    }
}

/// The contexts of the first `n` bindings, in order.
pub open spec fn bindings_contexts(bs: Seq<(Seq<char>, Expr)>, cfg: FinderConfig, n: int) -> Seq<
    (Seq<char>, Seq<char>),
>
    decreases n,
{
    if n <= 0 || n > bs.len() {
        seq![]
    } else {
        bindings_contexts(bs, cfg, n - 1) + binding_contexts(bs[n - 1].0, bs[n - 1].1, cfg)
    }
}

/// The contexts that assigning `value` to one target gives.
pub open spec fn target_contexts(target: Expr, value: Expr, cfg: FinderConfig) -> Seq<
    (Seq<char>, Seq<char>),
> {
    bindings_contexts(
        flatten(target_of(target), value),
        cfg,
        flatten(target_of(target), value).len() as int,
    )
}

/// The contexts that assigning `value` to the first `n` targets gives, target by target.
pub open spec fn targets_contexts(targets: Seq<Expr>, value: Expr, cfg: FinderConfig, n: int) -> Seq<
    (Seq<char>, Seq<char>),
>
    decreases n,
{
    if n <= 0 || n > targets.len() {
        seq![]
    } else {
        targets_contexts(targets, value, cfg, n - 1) + target_contexts(targets[n - 1], value, cfg)
    }
}

/// The context of an expression that stands as a statement: that of a call of a function
/// that the policy lists, under the dotted path of the callee.
pub open spec fn call_contexts(e: Expr, cfg: FinderConfig) -> Seq<(Seq<char>, Seq<char>)> {
    match e {
        Expr::Call { func, args, keywords } => match qualifying_name(cfg, *func) {
            Some(name) => named_contexts(
                name,
                known(resolve_text(e, cfg)),
                cfg,
                known(resolve_text(e, cfg)).len() as int,
            ),
            None => seq![],
        },
        _ => seq![],
    }
}

/// The contexts of a statement, in the order of the source text. An assignment or a
/// call whose value ends on a marked line gives none. A compound statement gives those
/// of the statements in its blocks.
pub open spec fn stmt_contexts(s: Stmt, cfg: FinderConfig, marked: Seq<bool>) -> Seq<
    (Seq<char>, Seq<char>),
>
    decreases s, 0nat,
{
    match s {
        Stmt::Assign { targets, value, last_line } => if ignores(marked, last_line) {
            seq![]
        } else {
            targets_contexts(targets@, value, cfg, targets@.len() as int)
        },
        Stmt::AnnAssign { target, value, last_line } => match value {
            Some(v) => if ignores(marked, last_line) {
                seq![]
            } else {
                target_contexts(target, v, cfg)
            },
            None => seq![],
        },
        Stmt::Expr { value, last_line } => if ignores(marked, last_line) {
            seq![]
        } else {
            call_contexts(value, cfg)
        },
        Stmt::If { body, orelse } => block_contexts(body@, cfg, marked, 0) + block_contexts(
            orelse@,
            cfg,
            marked,
            0,
        ),
        Stmt::For { body, orelse } => block_contexts(body@, cfg, marked, 0) + block_contexts(
            orelse@,
            cfg,
            marked,
            0,
        ),
        Stmt::While { body, orelse } => block_contexts(body@, cfg, marked, 0) + block_contexts(
            orelse@,
            cfg,
            marked,
            0,
        ),
        Stmt::Try { body, handlers, orelse, finalbody } => block_contexts(body@, cfg, marked, 0)
            + blocks_contexts(handlers@, cfg, marked, 0) + block_contexts(
            orelse@,
            cfg,
            marked,
            0,
        ) + block_contexts(finalbody@, cfg, marked, 0),
        Stmt::With { body } => block_contexts(body@, cfg, marked, 0),
        Stmt::Match { cases } => blocks_contexts(cases@, cfg, marked, 0),
        Stmt::FunctionDef { body } => block_contexts(body@, cfg, marked, 0),
        Stmt::ClassDef { body } => block_contexts(body@, cfg, marked, 0),
        Stmt::Other => seq![],
    }
}

/// The contexts of the statements of a block from index `i` on.
pub open spec fn block_contexts(
    block: Seq<Stmt>,
    cfg: FinderConfig,
    marked: Seq<bool>,
    i: int,
) -> Seq<(Seq<char>, Seq<char>)>
    decreases block, block.len() - i,
{
    if 0 <= i < block.len() {
        stmt_contexts(block[i], cfg, marked) + block_contexts(block, cfg, marked, i + 1)
    } else {
        seq![]
    }
}

/// The contexts of the blocks of a list from index `i` on, block by block.
pub open spec fn blocks_contexts(
    blocks: Seq<Vec<Stmt>>,
    cfg: FinderConfig,
    marked: Seq<bool>,
    i: int,
) -> Seq<(Seq<char>, Seq<char>)>
    decreases blocks, blocks.len() - i,
{
    if 0 <= i < blocks.len() {
        block_contexts(blocks[i]@, cfg, marked, 0) + blocks_contexts(
            blocks,
            cfg,
            marked,
            i + 1,
        )
    } else {
        seq![]
    }
}

/// The contexts of a whole program.
pub open spec fn program_contexts(stmts: Seq<Stmt>, cfg: FinderConfig, marked: Seq<bool>) -> Seq<
    (Seq<char>, Seq<char>),
> {
    block_contexts(stmts, cfg, marked, 0)
}

/// Finds the strings of a program that are taken for SQL under a naming policy.
#[derive(Debug)]
pub struct SqlFinder {
    pub config: FinderConfig,
}

impl SqlFinder {
    /// A finder that goes by the given policy.
    pub fn new(config: FinderConfig) -> (finder: SqlFinder)
        ensures
            finder.config == config,
    {
        SqlFinder { config }
    }

    fn long_enough(&self, text: &String) -> (enough: bool)
        ensures
            enough == self.config.long_enough(text@.len()),
    {
        match self.config.min_sql_length {
            Some(min) => text.as_str().unicode_len() >= min,
            None => true,
        }
    }

    fn emit_named(&self, name: &String, found: &Vec<String>, out: &mut Vec<SqlContext>)
        ensures
            context_views(final(out)@) == context_views(old(out)@) + named_contexts(
                name@,
                string_views(found@),
                self.config,
                found@.len() as int,
            ),
    {
        let ghost before = context_views(out@);
        let ghost texts = string_views(found@);
        let mut i: usize = 0;
        assert(before + named_contexts(name@, texts, self.config, 0) =~= before);
        while i < found.len()
            invariant
                i <= found.len(),
                texts == string_views(found@),
                context_views(out@) == before + named_contexts(name@, texts, self.config, i as int),
            decreases found.len() - i,
        {
            let ghost so_far = context_views(out@);
            assert(texts[i as int] == found@[i as int]@);
            if self.long_enough(&found[i]) {
                out.push(SqlContext { variable_name: name.clone(), sql_content: found[i].clone() });
                assert(context_views(out@) =~= so_far + seq![(name@, texts[i as int])]);
            }
            assert(context_views(out@) =~= before + named_contexts(
                name@,
                texts,
                self.config,
                i + 1,
            ));
            i += 1;
        }
    }

    fn emit_target(&self, target: &Expr, value: &Expr, out: &mut Vec<SqlContext>)
        ensures
            context_views(final(out)@) == context_views(old(out)@) + target_contexts(
                *target,
                *value,
                self.config,
            ),
    {
        let ghost before = context_views(out@);
        let mut bindings: Vec<Binding> = Vec::new();
        assert(binding_views(bindings@) =~= Seq::<(Seq<char>, Expr)>::empty());
        flatten_target(target, value, &mut bindings);
        let ghost bs = flatten(target_of(*target), *value);
        assert(binding_views(bindings@) =~= bs);
        let mut i: usize = 0;
        assert(before + bindings_contexts(bs, self.config, 0) =~= before);
        while i < bindings.len()
            invariant
                i <= bindings.len(),
                bs == binding_views(bindings@),
                context_views(out@) == before + bindings_contexts(bs, self.config, i as int),
            decreases bindings.len() - i,
        {
            let ghost so_far = context_views(out@);
            assert(bs[i as int] == bindings@[i as int]@);
            if self.config.is_variable(&bindings[i].name) {
                let found = resolve_all(bindings[i].value, &self.config);
                self.emit_named(&bindings[i].name, &found, out);
            } else {
                assert(so_far + Seq::<(Seq<char>, Seq<char>)>::empty() =~= so_far);
            }
            assert(context_views(out@) =~= before + bindings_contexts(bs, self.config, i + 1));
            i += 1;
        }
    }

    fn emit_call(&self, e: &Expr, out: &mut Vec<SqlContext>)
        ensures
            context_views(final(out)@) == context_views(old(out)@) + call_contexts(
                *e,
                self.config,
            ),
    {
        let ghost before = context_views(out@);
        assert(before + Seq::<(Seq<char>, Seq<char>)>::empty() =~= before);
        match e {
            Expr::Call { func, args: _, keywords: _ } => match name_of_call(&self.config, func) {
                Some(name) => {
                    let mut found: Vec<String> = Vec::new();
                    assert(string_views(found@) =~= Seq::<Seq<char>>::empty());
                    match resolve(e, &self.config) {
                        Some(t) => {
                            found.push(t);
                            assert(string_views(found@) =~= seq![t@]);
                        },
                        None => {},
                    }
                    self.emit_named(&name, &found, out);
                },
                None => {},
            },
            _ => {},
        }
    }

    fn walk_stmt(&self, s: &Stmt, file: &PreanalyzedFile, out: &mut Vec<SqlContext>)
        ensures
            context_views(final(out)@) == context_views(old(out)@) + stmt_contexts(
                *s,
                self.config,
                file@,
            ),
        decreases s, 0nat,
    {
        let ghost before = context_views(out@);
        assert(before + Seq::<(Seq<char>, Seq<char>)>::empty() =~= before);
        match s {
            Stmt::Assign { targets, value, last_line } => {
                if !file.is_ignored(*last_line) {
                    let mut i: usize = 0;
                    assert(before + targets_contexts(targets@, *value, self.config, 0) =~= before);
                    while i < targets.len()
                        invariant
                            i <= targets.len(),
                            context_views(out@) == before + targets_contexts(
                                targets@,
                                *value,
                                self.config,
                                i as int,
                            ),
                        decreases targets.len() - i,
                    {
                        self.emit_target(&targets[i], value, out);
                        assert(context_views(out@) =~= before + targets_contexts(
                            targets@,
                            *value,
                            self.config,
                            i + 1,
                        ));
                        i += 1;
                    }
                }
            },
            Stmt::AnnAssign { target, value, last_line } => {
                match value {
                    Some(v) => {
                        if !file.is_ignored(*last_line) {
                            self.emit_target(target, v, out);
                        }
                    },
                    None => {},
                }
            },
            Stmt::Expr { value, last_line } => {
                if !file.is_ignored(*last_line) {
                    self.emit_call(value, out);
                }
            },
            Stmt::If { body, orelse } => {
                self.walk_block(body, file, out);
                self.walk_block(orelse, file, out);
                assert(context_views(out@) =~= before + stmt_contexts(*s, self.config, file@));
            },
            Stmt::For { body, orelse } => {
                self.walk_block(body, file, out);
                self.walk_block(orelse, file, out);
                assert(context_views(out@) =~= before + stmt_contexts(*s, self.config, file@));
            },
            Stmt::While { body, orelse } => {
                self.walk_block(body, file, out);
                self.walk_block(orelse, file, out);
                assert(context_views(out@) =~= before + stmt_contexts(*s, self.config, file@));
            },
            Stmt::Try { body, handlers, orelse, finalbody } => {
                self.walk_block(body, file, out);
                self.walk_blocks(handlers, file, out);
                self.walk_block(orelse, file, out);
                self.walk_block(finalbody, file, out);
                assert(context_views(out@) =~= before + stmt_contexts(*s, self.config, file@));
            },
            Stmt::With { body } => {
                self.walk_block(body, file, out);
            },
            Stmt::Match { cases } => {
                self.walk_blocks(cases, file, out);
            },
            Stmt::FunctionDef { body } => {
                self.walk_block(body, file, out);
            },
            Stmt::ClassDef { body } => {
                self.walk_block(body, file, out);
            },
            Stmt::Other => {},
        }
    }

    fn walk_block(&self, block: &Vec<Stmt>, file: &PreanalyzedFile, out: &mut Vec<SqlContext>)
        ensures
            context_views(final(out)@) == context_views(old(out)@) + block_contexts(
                block@,
                self.config,
                file@,
                0,
            ),
        decreases block, block.len() + 1,
    {
        let ghost before = context_views(out@);
        let mut i: usize = 0;
        while i < block.len()
            invariant
                i <= block.len(),
                before + block_contexts(block@, self.config, file@, 0) == context_views(out@)
                    + block_contexts(block@, self.config, file@, i as int),
            decreases block.len() - i,
        {
            let ghost so_far = context_views(out@);
            self.walk_stmt(&block[i], file, out);
            assert(so_far + (stmt_contexts(block@[i as int], self.config, file@) + block_contexts(
                block@,
                self.config,
                file@,
                i + 1,
            )) =~= context_views(out@) + block_contexts(block@, self.config, file@, i + 1));
            i += 1;
        }
        assert(context_views(out@) + block_contexts(block@, self.config, file@, i as int)
            =~= context_views(out@));
    }

    fn walk_blocks(
        &self,
        blocks: &Vec<Vec<Stmt>>,
        file: &PreanalyzedFile,
        out: &mut Vec<SqlContext>,
    )
        ensures
            context_views(final(out)@) == context_views(old(out)@) + blocks_contexts(
                blocks@,
                self.config,
                file@,
                0,
            ),
        decreases blocks, blocks.len() + 1,
    {
        let ghost before = context_views(out@);
        let mut i: usize = 0;
        while i < blocks.len()
            invariant
                i <= blocks.len(),
                before + blocks_contexts(blocks@, self.config, file@, 0) == context_views(out@)
                    + blocks_contexts(blocks@, self.config, file@, i as int),
            decreases blocks.len() - i,
        {
            let ghost so_far = context_views(out@);
            self.walk_block(&blocks[i], file, out);
            assert(so_far + (block_contexts(blocks@[i as int]@, self.config, file@, 0)
                + blocks_contexts(blocks@, self.config, file@, i + 1)) =~= context_views(out@)
                + blocks_contexts(blocks@, self.config, file@, i + 1));
            i += 1;
        }
        assert(context_views(out@) + blocks_contexts(blocks@, self.config, file@, i as int)
            =~= context_views(out@));
    }

    /// Walks the statements of a program in the order of its text and gives the strings
    /// that are taken for SQL, each with the name that it was found under.
    pub fn analyze_stmts(&self, stmts: &Vec<Stmt>, file: &PreanalyzedFile) -> (found: Vec<
        SqlContext,
    >)
        ensures
            context_views(found@) == program_contexts(stmts@, self.config, file@),
    {
        let mut found: Vec<SqlContext> = Vec::new();
        assert(context_views(found@) =~= Seq::<(Seq<char>, Seq<char>)>::empty());
        self.walk_block(stmts, file, &mut found);
        assert(Seq::<(Seq<char>, Seq<char>)>::empty() + program_contexts(
            stmts@,
            self.config,
            file@,
        ) =~= program_contexts(stmts@, self.config, file@));
        found
    }
}

} // verus!
