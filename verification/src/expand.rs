//! Indirect-argument expansion: every `-@name` token is recursively replaced
//! by the whitespace-split contents of file `name`, resolved against the
//! working directory, unless the name starts with `E`, `O` or `@`, the file
//! cannot be read, or its contents hold a quote character — then the token
//! passes through unchanged. Tokens are produced one per pull from an
//! explicit pending-token stack. Substitution is capped by an explicit
//! budget, so a self-referential file degrades into an unexpanded token
//! instead of expanding without bound.

use vstd::prelude::*;
use crate::strutil::{
    has_quote, has_quote_char, join_path, seq_views, spec_join_path, starts_with,
    str_starts_with, str_eq, ws_split, split_whitespace_tokens,
};

verus! {

/// How many file substitutions one expansion may perform.
pub const EXPANSION_BUDGET: usize = 1024;

// ---------------------------------------------------------------------------
// The filesystem snapshot handed to the pure expander
// ---------------------------------------------------------------------------

/// The readable files, as path/contents pairs; the first entry for a path
/// wins.
pub struct FileStore {
    pub files: Vec<(String, String)>,
}

pub open spec fn spec_lookup_file(files: Seq<(String, String)>, path: Seq<char>) -> Option<
    Seq<char>,
>
    decreases files.len(),
{
    if files.len() == 0 {
        None
    } else if files[0].0@ == path {
        Some(files[0].1@)
    } else {
        spec_lookup_file(files.skip(1), path)
    }
}

impl FileStore {
    pub open spec fn spec_read(&self, path: Seq<char>) -> Option<Seq<char>> {
        spec_lookup_file(self.files@, path)
    }

    pub fn new() -> (r: FileStore)
        ensures
            r.files@.len() == 0,
    {
        FileStore { files: Vec::new() }
    }

    pub fn add(&mut self, path: String, contents: String)
        ensures
            final(self).files@ == old(self).files@.push((path, contents)),
    {
        self.files.push((path, contents));
    }

    pub fn read(&self, path: &str) -> (r: Option<String>)
        ensures
            match r {
                Some(c) => self.spec_read(path@) == Some(c@),
                None => self.spec_read(path@) is None,
            },
    {
        let n = self.files.len();
        let mut i: usize = 0;
        proof {
            assert(self.files@.skip(0) =~= self.files@);
        }
        while i < n
            invariant
                n == self.files@.len(),
                0 <= i <= n,
                spec_lookup_file(self.files@, path@) == spec_lookup_file(
                    self.files@.skip(i as int),
                    path@,
                ),
            decreases n - i,
        {
            proof {
                assert(self.files@.skip(i as int)[0] == self.files@[i as int]);
                assert(self.files@.skip(i as int).skip(1) =~= self.files@.skip(i + 1));
            }
            if str_eq(self.files[i].0.as_str(), path) {
                return Some(self.files[i].1.clone());
            }
            i = i + 1;
        }
        None
    }
}

// ---------------------------------------------------------------------------
// The expansion machine and its model
// ---------------------------------------------------------------------------

/// Model of the expander: the tokens still pending (front emitted first), a
/// token forced to be emitted literally, the working directory, and the
/// remaining substitution budget.
pub struct SpecExpandState {
    pub cwd: Seq<char>,
    pub forced: Option<Seq<char>>,
    pub pending: Seq<Seq<char>>,
    pub budget: nat,
}

/// An indirection marker: `-@` followed by a name not starting with `E`,
/// `O` or `@` (those spellings are compiler options, not indirections).
pub open spec fn spec_is_indirection(tok: Seq<char>) -> bool {
    starts_with(tok, "-@"@) && !spec_name_excepted(tok.skip(2))
}

pub open spec fn spec_name_excepted(name: Seq<char>) -> bool {
    name.len() > 0 && (name[0] == 'E' || name[0] == 'O' || name[0] == '@')
}

pub enum SpecStepOut {
    Done,
    Emit(Seq<char>, SpecExpandState),
    Push(SpecExpandState),
}

/// One step of the expander against the file snapshot: emit the front token
/// unchanged (always so for a forced token, a non-indirection, an excepted
/// name, an unreadable file, contents holding a quote, or an exhausted
/// budget), or substitute the file's tokens for it.
pub open spec fn spec_expand_step(s: SpecExpandState, fs: Seq<(String, String)>) -> SpecStepOut {
    if s.forced is Some {
        SpecStepOut::Emit(
            s.forced.unwrap(),
            SpecExpandState { forced: None, ..s },
        )
    } else if s.pending.len() == 0 {
        SpecStepOut::Done
    } else {
        let t = s.pending[0];
        let rest = SpecExpandState { forced: None, pending: s.pending.skip(1), ..s };
        if !spec_is_indirection(t) || s.budget == 0 {
            SpecStepOut::Emit(t, rest)
        } else {
            match spec_lookup_file(fs, spec_join_path(s.cwd, t.skip(2))) {
                None => SpecStepOut::Emit(t, rest),
                Some(c) => if has_quote_char(c) {
                    SpecStepOut::Emit(t, rest)
                } else {
                    SpecStepOut::Push(
                        SpecExpandState {
                            forced: None,
                            pending: ws_split(c) + s.pending.skip(1),
                            budget: (s.budget - 1) as nat,
                            ..s
                        },
                    )
                },
            }
        }
    }
}

pub enum SpecNext {
    Out(Seq<char>, SpecExpandState),
    End,
}

/// The next token the expander emits, with the state left behind; `End` when
/// the pending stack runs out.
pub open spec fn spec_next_emit(s: SpecExpandState, fs: Seq<(String, String)>) -> SpecNext
    decreases s.budget,
{
    match spec_expand_step(s, fs) {
        SpecStepOut::Done => SpecNext::End,
        SpecStepOut::Emit(t, s2) => SpecNext::Out(t, s2),
        SpecStepOut::Push(s2) => spec_next_emit(s2, fs),
    }
}

/// Every token the expander emits, in order.
pub open spec fn spec_expand_all(s: SpecExpandState, fs: Seq<(String, String)>) -> Seq<Seq<char>>
    decreases s.budget, s.pending.len() + (if s.forced is Some { 1int } else { 0int }),
{
    match spec_expand_step(s, fs) {
        SpecStepOut::Done => Seq::empty(),
        SpecStepOut::Emit(t, s2) => seq![t] + spec_expand_all(s2, fs),
        SpecStepOut::Push(s2) => spec_expand_all(s2, fs),
    }
}

/// The emitted stream factors through single emissions.
pub proof fn lemma_expand_all_next(s: SpecExpandState, fs: Seq<(String, String)>)
    ensures
        match spec_next_emit(s, fs) {
            SpecNext::End => spec_expand_all(s, fs) == Seq::<Seq<char>>::empty(),
            SpecNext::Out(t, s2) => spec_expand_all(s, fs) == seq![t] + spec_expand_all(s2, fs),
        },
    decreases s.budget,
{
    match spec_expand_step(s, fs) {
        SpecStepOut::Done => {},
        SpecStepOut::Emit(t, s2) => {},
        SpecStepOut::Push(s2) => {
            lemma_expand_all_next(s2, fs);
        },
    }
}

// ---------------------------------------------------------------------------
// The executable expander
// ---------------------------------------------------------------------------

/// What the expander asks of its driver next: a ready token, the need to
/// read a file (hand the outcome back through `supply`), or the end of the
/// stream.
#[derive(Debug)]
pub enum ExpandStep {
    Tok(String),
    Need { path: String, original: String },
    End,
}

/// Pull-based expander over a token list. `next` runs it against a
/// `FileStore` snapshot; `poll` and `supply` expose the same machine to a
/// driver that performs real file reads itself.
pub struct ExpandAtArgs {
    cwd: String,
    forced: Option<String>,
    stack: Vec<String>,
    budget: usize,
}

impl View for ExpandAtArgs {
    type V = SpecExpandState;

    closed spec fn view(&self) -> SpecExpandState {
        SpecExpandState {
            cwd: self.cwd@,
            forced: match self.forced {
                Some(s) => Some(s@),
                None => None,
            },
            pending: seq_views(self.stack@),
            budget: self.budget as nat,
        }
    }
}

impl ExpandAtArgs {
    pub fn new(cwd: &str, args: &Vec<String>) -> (r: ExpandAtArgs)
        ensures
            r@ == (SpecExpandState {
                cwd: cwd@,
                forced: None,
                pending: seq_views(args@),
                budget: EXPANSION_BUDGET as nat,
            }),
    {
        ExpandAtArgs {
            cwd: String::from_str(cwd),
            forced: None,
            stack: args.clone(),
            budget: EXPANSION_BUDGET,
        }
    }

    /// Pop the front token and decide: emit it, or ask for a file.
    pub fn poll(&mut self) -> (r: ExpandStep)
        ensures
            final(self)@.cwd == old(self)@.cwd,
            final(self)@.budget == old(self)@.budget,
            final(self)@.forced is None,
            match r {
                ExpandStep::End => old(self)@.forced is None && old(self)@.pending.len() == 0
                    && final(self)@.pending == old(self)@.pending,
                ExpandStep::Tok(t) => if old(self)@.forced is Some {
                    t@ == old(self)@.forced.unwrap() && final(self)@.pending == old(
                        self,
                    )@.pending
                } else {
                    old(self)@.pending.len() > 0 && t@ == old(self)@.pending[0] && (
                    !spec_is_indirection(t@) || old(self)@.budget == 0) && final(self)@.pending
                        == old(self)@.pending.skip(1)
                },
                ExpandStep::Need { path, original } => old(self)@.forced is None && old(
                    self,
                )@.pending.len() > 0 && old(self)@.budget > 0 && spec_is_indirection(
                    old(self)@.pending[0],
                ) && original@ == old(self)@.pending[0] && path@ == spec_join_path(
                    old(self)@.cwd,
                    old(self)@.pending[0].skip(2),
                ) && final(self)@.pending == old(self)@.pending.skip(1),
            },
    {
        let forced = self.forced.take();
        match forced {
            Some(t) => ExpandStep::Tok(t),
            None => {
                if self.stack.len() == 0 {
                    return ExpandStep::End;
                }
                let t = self.stack.remove(0);
                proof {
                    assert(seq_views(old(self).stack@).skip(1) =~= seq_views(
                        old(self).stack@.skip(1),
                    ));
                    assert(old(self).stack@.remove(0) =~= old(self).stack@.skip(1));
                }
                if self.budget == 0 || !str_starts_with(t.as_str(), "-@") {
                    return ExpandStep::Tok(t);
                }
                let n = t.as_str().unicode_len();
                proof {
                    reveal_strlit("-@");
                }
                let name = t.as_str().substring_char(2, n);
                proof {
                    assert(name@ =~= t@.skip(2));
                }
                let nn = name.unicode_len();
                if nn > 0 {
                    let c0 = name.get_char(0);
                    if c0 == 'E' || c0 == 'O' || c0 == '@' {
                        return ExpandStep::Tok(t);
                    }
                }
                let path = join_path(self.cwd.as_str(), name);
                ExpandStep::Need { path, original: t }
            },
        }
    }

    /// Hand back what reading the file gave: its contents, or nothing when
    /// it could not be read. Unreadable files and contents holding a quote
    /// force the original token through unchanged; otherwise the
    /// whitespace-split contents are put in front of the pending tokens and
    /// one unit of budget is spent.
    pub fn supply(&mut self, original: String, contents: Option<String>)
        requires
            old(self)@.forced is None,
            old(self)@.budget > 0,
        ensures
            final(self)@.cwd == old(self)@.cwd,
            match contents {
                None => final(self)@ == (SpecExpandState {
                    forced: Some(original@),
                    ..old(self)@
                }),
                Some(c) => if has_quote_char(c@) {
                    final(self)@ == (SpecExpandState { forced: Some(original@), ..old(self)@ })
                } else {
                    final(self)@ == (SpecExpandState {
                        forced: None,
                        pending: ws_split(c@) + old(self)@.pending,
                        budget: (old(self)@.budget - 1) as nat,
                        ..old(self)@
                    })
                },
            },
    {
        match contents {
            None => {
                self.forced = Some(original);
            },
            Some(c) => {
                if has_quote(c.as_str()) {
                    self.forced = Some(original);
                } else {
                    let mut nv = split_whitespace_tokens(c.as_str());
                    proof {
                        let a = nv@;
                        let b = self.stack@;
                        crate::strutil::lemma_seq_views_add(a, b);
                    }
                    nv.append(&mut self.stack);
                    self.stack = nv;
                    self.budget = self.budget - 1;
                }
            },
        }
    }

    /// The next expanded token, reading files from the given snapshot.
    pub fn next(&mut self, fs: &FileStore) -> (r: Option<String>)
        ensures
            match spec_next_emit(old(self)@, fs.files@) {
                SpecNext::Out(t, s2) => r is Some && r.unwrap()@ == t && final(self)@ == s2,
                SpecNext::End => r is None && final(self)@.forced is None
                    && final(self)@.pending.len() == 0,
            },
    {
        loop
            invariant
                spec_next_emit(old(self)@, fs.files@) == spec_next_emit(self@, fs.files@),
            decreases self@.budget,
        {
            let ghost pre = self@;
            let step = self.poll();
            match step {
                ExpandStep::End => {
                    return None;
                },
                ExpandStep::Tok(t) => {
                    proof {
                        assert(spec_expand_step(pre, fs.files@) == SpecStepOut::Emit(t@, self@));
                    }
                    return Some(t);
                },
                ExpandStep::Need { path, original } => {
                    let ghost popped = self@;
                    let contents = fs.read(path.as_str());
                    let quit = match &contents {
                        None => true,
                        Some(c) => has_quote(c.as_str()),
                    };
                    if quit {
                        proof {
                            assert(spec_expand_step(pre, fs.files@) == SpecStepOut::Emit(
                                original@,
                                popped,
                            ));
                        }
                        return Some(original);
                    }
                    self.supply(original, contents);
                    proof {
                        assert(spec_expand_step(pre, fs.files@) == SpecStepOut::Push(self@));
                    }
                },
            }
        }
    }
}

} // verus!
