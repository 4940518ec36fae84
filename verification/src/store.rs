use vstd::prelude::*;

use crate::clipboard::{ClipboardProvider, ClipboardType};
use crate::content::{content_matches, contents_are_saved, first_line, first_line_of, join_values, join_with};
use crate::decimal::{dec_rep, decimal_string};
use crate::register::{last_batch, reg_push, reg_write, Register};
use crate::values::RegisterValues;

verus! {

/// The placeholder read from the document-path register when the current
/// buffer has no path.
pub open spec fn scratch_buffer_name() -> Seq<char> {
    "[scratch]"@
}

/// The scratch-buffer placeholder as an owned text value.
pub fn scratch_buffer_label() -> (r: String)
    ensures
        r@ == scratch_buffer_name(),
{
    let label = "[scratch]";
    label.to_owned()
}

/// The slice of editor state that special-register reads consult: the text
/// of each active selection, in order, and the current document path when
/// the buffer has one.
pub struct EditorContext {
    /// The text of each active selection, in selection order.
    pub selections: Vec<String>,
    /// The path of the current document, or none for a scratch buffer.
    pub document_path: Option<String>,
}

/// The recoverable failures of writing and pushing.
#[derive(Debug)]
pub enum StoreError {
    /// The addressed special register is read-only and was not mutated.
    ReadOnlyRegister,
    /// A push to a clipboard register found external content that no longer
    /// matches the cached batch; nothing was mutated.
    StaleClipboard,
    /// The bridge failed to read the external clipboard; nothing was mutated.
    ClipboardRead(String),
    /// The bridge failed to set the external clipboard; the local cache was
    /// already updated and stays so.
    ClipboardSet(String),
}

/// Whether a name is one of the reserved special registers.
pub open spec fn is_special(name: char) -> bool {
    name == '_' || name == '#' || name == '.' || name == '%' || name == '+' || name == '*'
}

/// Whether a name addresses one of the two clipboard-backed registers.
pub open spec fn is_clipboard_name(name: char) -> bool {
    name == '+' || name == '*'
}

/// Whether a name is a read-only special register.
pub open spec fn is_read_only(name: char) -> bool {
    name == '#' || name == '.' || name == '%'
}

/// The clipboard kind behind a clipboard register name.
pub open spec fn kind_of(name: char) -> ClipboardType {
    if name == '+' {
        ClipboardType::Clipboard
    } else {
        ClipboardType::Selection
    }
}

/// The clipboard kind a given kind does not address.
pub open spec fn other_kind(kind: ClipboardType) -> ClipboardType {
    match kind {
        ClipboardType::Clipboard => ClipboardType::Selection,
        ClipboardType::Selection => ClipboardType::Clipboard,
    }
}

/// The history stored under a name, or the empty history when the name is
/// unset; writes and pushes start from this.
pub open spec fn hist_or_empty(m: Map<char, Seq<Seq<Seq<char>>>>, name: char) -> Seq<Seq<Seq<char>>> {
    if m.contains_key(name) {
        m[name]
    } else {
        Seq::empty()
    }
}

/// The document path a read of the path register yields: the context's path,
/// or the scratch placeholder when the buffer is unnamed.
pub open spec fn path_or_scratch(ctx: &EditorContext) -> Seq<char> {
    match ctx.document_path {
        Some(p) => p@,
        None => scratch_buffer_name(),
    }
}

/// The text pushed back to the external clipboard after a push: the new
/// value in front of the prior external content, with one separator between
/// them when the prior content is non-empty.
pub open spec fn pushed_clipboard_text(value: Seq<char>, sep: Seq<char>, prior: Seq<char>) -> Seq<char> {
    if prior.len() == 0 {
        value
    } else {
        value + sep + prior
    }
}

/// What a clipboard read may hand back: nothing when the backend failed, the
/// cached batch when the raw text matches it, or the raw text as one opaque
/// value; and against a faithful bridge, exactly the one of those that the
/// modeled contents select.
pub open spec fn clipboard_values_post<P: ClipboardProvider>(
    provider: P,
    cached: Option<Seq<Seq<Seq<char>>>>,
    sep: Seq<char>,
    kind: ClipboardType,
    vals: Seq<Seq<char>>,
) -> bool {
    &&& {
        ||| vals.len() == 0
        ||| vals.len() == 1
        ||| (cached matches Some(hist) && vals == last_batch(hist))
    }
    &&& provider.faithful() ==> {
        let text = provider.contents_model(kind);
        match cached {
            Some(hist) => if content_matches(last_batch(hist), sep, text) {
                vals == last_batch(hist)
            } else {
                vals == seq![text]
            },
            None => vals == seq![text],
        }
    }
}

/// The mapping a table of named registers denotes: each name to the history
/// of its register, later entries overriding earlier ones. Well-formed
/// tables hold each name at most once.
spec fn table_view(t: Seq<(char, Register)>) -> Map<char, Seq<Seq<Seq<char>>>>
    decreases t.len(),
{
    if t.len() == 0 {
        Map::empty()
    } else {
        table_view(t.drop_last()).insert(t.last().0, t.last().1@)
    }
}

/// Whether a table holds each name at most once.
spec fn unique_names(t: Seq<(char, Register)>) -> bool {
    forall|i: int, j: int| 0 <= i < j < t.len() ==> t[i].0 != t[j].0
}

proof fn lemma_table_view_domain(t: Seq<(char, Register)>, name: char)
    ensures
        table_view(t).contains_key(name) <==> exists|i: int| 0 <= i < t.len() && t[i].0 == name,
    decreases t.len(),
{
    if t.len() > 0 {
        lemma_table_view_domain(t.drop_last(), name);
        if t.last().0 == name {
            assert(t[t.len() - 1].0 == name);
        } else {
            if exists|i: int| 0 <= i < t.len() && t[i].0 == name {
                let i = choose|i: int| 0 <= i < t.len() && t[i].0 == name;
                assert(t.drop_last()[i] == t[i]);
            }
            if exists|i: int| 0 <= i < t.drop_last().len() && t.drop_last()[i].0 == name {
                let i = choose|i: int| 0 <= i < t.drop_last().len() && t.drop_last()[i].0 == name;
                assert(t[i].0 == name);
            }
        }
    }
}

proof fn lemma_table_view_at(t: Seq<(char, Register)>, i: int)
    requires
        unique_names(t),
        0 <= i < t.len(),
    ensures
        table_view(t).contains_key(t[i].0),
        table_view(t)[t[i].0] == t[i].1@,
    decreases t.len(),
{
    if i < t.len() - 1 {
        lemma_table_view_at(t.drop_last(), i);
        assert(t.drop_last()[i] == t[i]);
        assert(t.last().0 != t[i].0);
    }
}

proof fn lemma_table_view_push(t: Seq<(char, Register)>, name: char, r: Register)
    ensures
        table_view(t.push((name, r))) =~= table_view(t).insert(name, r@),
{
    assert(t.push((name, r)).drop_last() =~= t);
}

proof fn lemma_table_view_remove(t: Seq<(char, Register)>, i: int)
    requires
        unique_names(t),
        0 <= i < t.len(),
    ensures
        table_view(t.remove(i)) =~= table_view(t).remove(t[i].0),
    decreases t.len(),
{
    if i == t.len() - 1 {
        assert(t.remove(i) =~= t.drop_last());
        lemma_table_view_domain(t.drop_last(), t[i].0);
        assert(forall|j: int| 0 <= j < t.len() - 1 ==> t.drop_last()[j] == t[j]);
        assert(!table_view(t.drop_last()).contains_key(t[i].0));
        assert(table_view(t.remove(i)) =~= table_view(t).remove(t[i].0));
    } else {
        lemma_table_view_remove(t.drop_last(), i);
        assert(t.drop_last()[i] == t[i]);
        assert(t.remove(i).drop_last() =~= t.drop_last().remove(i));
        assert(t.remove(i).last() == t.last());
        assert(t.last().0 != t[i].0);
        assert(table_view(t.remove(i)) =~= table_view(t).remove(t[i].0));
    }
}

/// A key-value store for saving sets of text values under single-character
/// names. Most names store any set of values; a few are special registers
/// with reserved behaviour: the black hole discards everything, three
/// read-only names synthesize content from the editor context, and the two
/// clipboard names keep a local cache synchronized with the operating
/// environment's clipboards through an injected bridge.
pub struct Registers<P: ClipboardProvider> {
    table: Vec<(char, Register)>,
    provider: P,
    line_ending: String,
    /// The register that last held a search pattern; not itself a register.
    pub last_search_register: char,
}

impl<P: ClipboardProvider> Registers<P> {
    /// The mapping of stored names to register histories.
    pub closed spec fn regs(&self) -> Map<char, Seq<Seq<Seq<char>>>> {
        table_view(self.table@)
    }

    /// The injected clipboard bridge.
    pub closed spec fn bridge(&self) -> P {
        self.provider
    }

    /// The native line separator that clipboard content is joined with.
    pub closed spec fn sep(&self) -> Seq<char> {
        self.line_ending@
    }

    /// The register that last held a search pattern.
    pub closed spec fn last_search(&self) -> char {
        self.last_search_register
    }

    /// Well-formedness: stored names are unique and never read-only or the
    /// black hole, and every stored register is well formed and non-empty.
    pub closed spec fn wf(&self) -> bool {
        &&& unique_names(self.table@)
        &&& forall|i: int| 0 <= i < self.table@.len() ==> !is_read_only(#[trigger] self.table@[i].0)
            && self.table@[i].0 != '_'
        &&& forall|i: int| 0 <= i < self.table@.len() ==> (#[trigger] self.table@[i].1).inv()
            && self.table@[i].1@.len() > 0
    }

    /// A fresh store around an injected clipboard bridge and the platform's
    /// native line separator, holding no registers yet.
    pub fn new(provider: P, line_ending: String) -> (r: Self)
        ensures
            r.wf(),
            r.regs() == Map::<char, Seq<Seq<Seq<char>>>>::empty(),
            r.bridge() == provider,
            r.sep() == line_ending@,
            r.last_search() == '/',
    {
        let table: Vec<(char, Register)> = Vec::new();
        let r = Registers { table, provider, line_ending, last_search_register: '/' };
        r
    }

    /// The index of a name in the table, when stored.
    fn find_index(&self, name: char) -> (r: Option<usize>)
        ensures
            match r {
                Some(i) => i < self.table@.len() && self.table@[i as int].0 == name,
                None => forall|i: int| 0 <= i < self.table@.len() ==> self.table@[i].0 != name,
            },
    {
        let mut i: usize = 0;
        while i < self.table.len()
            invariant
                i <= self.table@.len(),
                forall|j: int| 0 <= j < i ==> self.table@[j].0 != name,
            decreases self.table@.len() - i,
        {
            if self.table[i].0 == name {
                return Some(i);
            }
            i += 1;
        }
        None
    }

    /// The stored register behind a name, when there is one.
    fn get_register(&self, name: char) -> (r: Option<&Register>)
        requires
            self.wf(),
        ensures
            match r {
                Some(reg) => self.regs().contains_key(name) && reg@ == self.regs()[name]
                    && reg.inv() && reg@.len() > 0,
                None => !self.regs().contains_key(name),
            },
    {
        match self.find_index(name) {
            Some(i) => {
                proof {
                    lemma_table_view_at(self.table@, i as int);
                    lemma_table_view_domain(self.table@, name);
                }
                Some(&self.table[i].1)
            },
            None => {
                proof {
                    lemma_table_view_domain(self.table@, name);
                }
                None
            },
        }
    }

    /// Writes one batch into the stored register for a name, creating the
    /// register on first use.
    fn write_into(&mut self, name: char, values: Vec<String>)
        requires
            old(self).wf(),
            !is_read_only(name),
            name != '_',
            values@.len() > 0,
        ensures
            final(self).wf(),
            final(self).regs() == old(self).regs().insert(
                name,
                reg_write(hist_or_empty(old(self).regs(), name), values.deep_view()),
            ),
            final(self).bridge() == old(self).bridge(),
            final(self).sep() == old(self).sep(),
            final(self).last_search() == old(self).last_search(),
    {
        let ghost t0 = self.table@;
        match self.find_index(name) {
            Some(i) => {
                proof {
                    lemma_table_view_at(t0, i as int);
                    lemma_table_view_domain(t0, name);
                }
                let mut entry = self.table.remove(i);
                entry.1.write(values);
                self.table.push(entry);
                proof {
                    let t1 = t0.remove(i as int);
                    lemma_table_view_remove(t0, i as int);
                    assert(unique_names(t1)) by {
                        assert(forall|j: int| 0 <= j < t1.len() ==> t1[j] == if j < i as int {
                            t0[j]
                        } else {
                            t0[j + 1]
                        });
                    }
                    lemma_table_view_push(t1, name, entry.1);
                    assert(self.table@ == t1.push((name, entry.1)));
                    assert(self.regs() =~= old(self).regs().insert(
                        name,
                        reg_write(hist_or_empty(old(self).regs(), name), values.deep_view()),
                    ));
                    assert forall|a: int, b: int| 0 <= a < b < self.table@.len() implies
                        self.table@[a].0 != self.table@[b].0 by {
                        if b == self.table@.len() - 1 {
                            assert(t1[a] == if a < i as int { t0[a] } else { t0[a + 1] });
                        }
                    }
                }
            },
            None => {
                proof {
                    lemma_table_view_domain(t0, name);
                }
                let mut reg = Register::new();
                reg.write(values);
                self.table.push((name, reg));
                proof {
                    lemma_table_view_push(t0, name, reg);
                    assert(self.regs() =~= old(self).regs().insert(
                        name,
                        reg_write(hist_or_empty(old(self).regs(), name), values.deep_view()),
                    ));
                }
            },
        }
    }

    /// Appends one value to the stored register for a name, creating a
    /// one-value register on first use.
    fn push_into(&mut self, name: char, value: String)
        requires
            old(self).wf(),
            !is_read_only(name),
            name != '_',
        ensures
            final(self).wf(),
            final(self).regs() == old(self).regs().insert(
                name,
                reg_push(hist_or_empty(old(self).regs(), name), value@),
            ),
            final(self).bridge() == old(self).bridge(),
            final(self).sep() == old(self).sep(),
            final(self).last_search() == old(self).last_search(),
    {
        let ghost t0 = self.table@;
        match self.find_index(name) {
            Some(i) => {
                proof {
                    lemma_table_view_at(t0, i as int);
                    lemma_table_view_domain(t0, name);
                }
                let mut entry = self.table.remove(i);
                entry.1.push(value);
                self.table.push(entry);
                proof {
                    let t1 = t0.remove(i as int);
                    lemma_table_view_remove(t0, i as int);
                    assert(unique_names(t1)) by {
                        assert(forall|j: int| 0 <= j < t1.len() ==> t1[j] == if j < i as int {
                            t0[j]
                        } else {
                            t0[j + 1]
                        });
                    }
                    lemma_table_view_push(t1, name, entry.1);
                    assert(self.table@ == t1.push((name, entry.1)));
                    assert(self.regs() =~= old(self).regs().insert(
                        name,
                        reg_push(hist_or_empty(old(self).regs(), name), value@),
                    ));
                    assert forall|a: int, b: int| 0 <= a < b < self.table@.len() implies
                        self.table@[a].0 != self.table@[b].0 by {
                        if b == self.table@.len() - 1 {
                            assert(t1[a] == if a < i as int { t0[a] } else { t0[a + 1] });
                        }
                    }
                }
            },
            None => {
                proof {
                    lemma_table_view_domain(t0, name);
                }
                let mut reg = Register::new();
                reg.push(value);
                self.table.push((name, reg));
                proof {
                    lemma_table_view_push(t0, name, reg);
                    assert(self.regs() =~= old(self).regs().insert(
                        name,
                        reg_push(hist_or_empty(old(self).regs(), name), value@),
                    ));
                }
            },
        }
    }

    /// Writes `values` as one new yank batch under `name`. The black hole
    /// accepts and discards; the read-only special names fail without
    /// mutating; the clipboard names write into the backing register and then
    /// set the external clipboard to the new batch joined with the native
    /// separator, a backend failure propagating as an error while the local
    /// cache stays updated; any other name simply stores the batch. Writing
    /// zero values is a contract violation and is excluded here.
    pub fn write(&mut self, name: char, values: Vec<String>) -> (r: Result<(), StoreError>)
        requires
            old(self).wf(),
            values@.len() > 0,
        ensures
            final(self).wf(),
            final(self).sep() == old(self).sep(),
            final(self).last_search() == old(self).last_search(),
            name == '_' ==> r is Ok && final(self).regs() == old(self).regs()
                && final(self).bridge() == old(self).bridge(),
            is_read_only(name) ==> (r matches Err(StoreError::ReadOnlyRegister))
                && final(self).regs() == old(self).regs()
                && final(self).bridge() == old(self).bridge(),
            !is_special(name) ==> r is Ok && final(self).bridge() == old(self).bridge()
                && final(self).regs() == old(self).regs().insert(
                    name,
                    reg_write(hist_or_empty(old(self).regs(), name), values.deep_view()),
                ),
            is_clipboard_name(name) ==> {
                &&& final(self).regs() == old(self).regs().insert(
                    name,
                    reg_write(hist_or_empty(old(self).regs(), name), values.deep_view()),
                )
                &&& (r is Ok || r matches Err(StoreError::ClipboardSet(_)))
                &&& final(self).bridge().faithful() == old(self).bridge().faithful()
                &&& old(self).bridge().faithful() ==> {
                    &&& r is Ok
                    &&& final(self).bridge().contents_model(kind_of(name)) == join_with(
                        values.deep_view(),
                        old(self).sep(),
                    )
                    &&& final(self).bridge().contents_model(other_kind(kind_of(name)))
                        == old(self).bridge().contents_model(other_kind(kind_of(name)))
                }
            },
    {
        if values.len() == 0 {
            // a write of zero values is a contract violation, terminated
            // abnormally rather than treated as a recoverable error
            return unreached();
        }
        if name == '_' {
            Ok(())
        } else if name == '#' || name == '.' || name == '%' {
            Err(StoreError::ReadOnlyRegister)
        } else if name == '+' || name == '*' {
            let kind = if name == '+' {
                ClipboardType::Clipboard
            } else {
                ClipboardType::Selection
            };
            self.write_into(name, values);
            let joined = match self.get_register(name) {
                Some(reg) => match reg.current_batch() {
                    Some(batch) => join_values(batch, self.line_ending.as_str()),
                    None => unreached(),
                },
                None => unreached(),
            };
            match self.provider.set_contents(joined, kind) {
                Ok(_) => Ok(()),
                Err(e) => Err(StoreError::ClipboardSet(e)),
            }
        } else {
            self.write_into(name, values);
            Ok(())
        }
    }

    /// Appends one value to the most recent batch under `name`. The black
    /// hole accepts and discards; the read-only special names fail without
    /// mutating; the clipboard names first re-read the external clipboard and
    /// require its content to still match the backing register's joined
    /// batch — failing as stale and mutating nothing otherwise — then append
    /// locally and set the external clipboard to the value in front of the
    /// prior content; any other name simply appends.
    pub fn push(&mut self, name: char, value: String) -> (r: Result<(), StoreError>)
        requires
            old(self).wf(),
        ensures
            final(self).wf(),
            final(self).sep() == old(self).sep(),
            final(self).last_search() == old(self).last_search(),
            name == '_' ==> r is Ok && final(self).regs() == old(self).regs()
                && final(self).bridge() == old(self).bridge(),
            is_read_only(name) ==> (r matches Err(StoreError::ReadOnlyRegister))
                && final(self).regs() == old(self).regs()
                && final(self).bridge() == old(self).bridge(),
            !is_special(name) ==> r is Ok && final(self).bridge() == old(self).bridge()
                && final(self).regs() == old(self).regs().insert(
                    name,
                    reg_push(hist_or_empty(old(self).regs(), name), value@),
                ),
            is_clipboard_name(name) ==> {
                &&& final(self).bridge().faithful() == old(self).bridge().faithful()
                &&& (r is Ok || r matches Err(StoreError::ClipboardSet(_)))
                    ==> final(self).regs() == old(self).regs().insert(
                        name,
                        reg_push(hist_or_empty(old(self).regs(), name), value@),
                    )
                &&& (r matches Err(StoreError::StaleClipboard) || r matches Err(
                    StoreError::ClipboardRead(_),
                )) ==> final(self).regs() == old(self).regs() && final(self).bridge()
                    == old(self).bridge()
                &&& !(r matches Err(StoreError::ReadOnlyRegister))
                &&& old(self).bridge().faithful() ==> {
                    let prior = old(self).bridge().contents_model(kind_of(name));
                    if content_matches(
                        last_batch(hist_or_empty(old(self).regs(), name)),
                        old(self).sep(),
                        prior,
                    ) {
                        &&& r is Ok
                        &&& final(self).bridge().contents_model(kind_of(name))
                            == pushed_clipboard_text(value@, old(self).sep(), prior)
                        &&& final(self).bridge().contents_model(other_kind(kind_of(name)))
                            == old(self).bridge().contents_model(other_kind(kind_of(name)))
                    } else {
                        &&& r matches Err(StoreError::StaleClipboard)
                        &&& final(self).regs() == old(self).regs()
                        &&& final(self).bridge() == old(self).bridge()
                    }
                }
            },
    {
        if name == '_' {
            Ok(())
        } else if name == '#' || name == '.' || name == '%' {
            Err(StoreError::ReadOnlyRegister)
        } else if name == '+' || name == '*' {
            let kind = if name == '+' {
                ClipboardType::Clipboard
            } else {
                ClipboardType::Selection
            };
            let contents = match self.provider.get_contents(kind) {
                Ok(c) => c,
                Err(e) => {
                    return Err(StoreError::ClipboardRead(e));
                },
            };
            let matched = match self.get_register(name) {
                Some(reg) => match reg.current_batch() {
                    Some(batch) => contents_are_saved(
                        batch,
                        self.line_ending.as_str(),
                        contents.as_str(),
                    ),
                    None => unreached(),
                },
                None => {
                    let e = contents.as_str().is_empty();
                    proof {
                        if contents@.len() == 0 {
                            assert(contents@ =~= join_with(
                                last_batch(hist_or_empty(self.regs(), name)),
                                self.sep(),
                            ));
                        }
                    }
                    e
                },
            };
            if !matched {
                return Err(StoreError::StaleClipboard);
            }
            let pushed = value.clone();
            self.push_into(name, pushed);
            let mut text = value;
            if !contents.as_str().is_empty() {
                text.append(self.line_ending.as_str());
            }
            text.append(contents.as_str());
            match self.provider.set_contents(text, kind) {
                Ok(_) => Ok(()),
                Err(e) => Err(StoreError::ClipboardSet(e)),
            }
        } else {
            self.push_into(name, value);
            Ok(())
        }
    }
}

impl<P: ClipboardProvider> Registers<P> {
    /// What a read of one name yields: an empty sequence from the black
    /// hole; one numeral per active selection from the selection-index
    /// register; the selection texts from the selection-contents register;
    /// the document path or the scratch placeholder from the path register;
    /// the reconciled external content from the clipboard registers; and the
    /// most recent stored batch, or nothing, from any other name.
    pub open spec fn read_post(&self, name: char, ctx: &EditorContext, r: Option<Seq<Seq<char>>>) -> bool {
        if name == '_' {
            r == Some(Seq::<Seq<char>>::empty())
        } else if name == '#' {
            r == Some(Seq::new(ctx.selections@.len() as nat, |i: int| dec_rep((i + 1) as nat)))
        } else if name == '.' {
            r == Some(ctx.selections.deep_view())
        } else if name == '%' {
            r == Some(seq![path_or_scratch(ctx)])
        } else if is_clipboard_name(name) {
            r matches Some(vals) && clipboard_values_post(
                self.bridge(),
                if self.regs().contains_key(name) {
                    Some(self.regs()[name])
                } else {
                    None
                },
                self.sep(),
                kind_of(name),
                vals,
            )
        } else {
            if self.regs().contains_key(name) {
                r == Some(last_batch(self.regs()[name]))
            } else {
                r is None
            }
        }
    }

    /// Reads a register: special names synthesize or delegate, other names
    /// expose the most recent stored batch. Reads never fail and never
    /// mutate; an unset ordinary name yields nothing.
    pub fn read(&self, name: char, ctx: &EditorContext) -> (r: Option<RegisterValues>)
        requires
            self.wf(),
        ensures
            r matches Some(vals) ==> self.read_post(name, ctx, Some(vals@)),
            r is None ==> self.read_post(name, ctx, None::<Seq<Seq<char>>>),
    {
        if name == '_' {
            let empty: Vec<String> = Vec::new();
            proof {
                assert(empty.deep_view() =~= Seq::<Seq<char>>::empty());
            }
            Some(RegisterValues::new(empty))
        } else if name == '#' {
            let n = ctx.selections.len();
            let mut numerals: Vec<String> = Vec::new();
            let mut i: usize = 0;
            while i < n
                invariant
                    i <= n,
                    numerals@.len() == i,
                    forall|j: int| 0 <= j < i ==> numerals@[j]@ == dec_rep((j + 1) as nat),
                decreases n - i,
            {
                numerals.push(decimal_string(i + 1));
                i += 1;
            }
            proof {
                assert(numerals.deep_view() =~= Seq::new(
                    ctx.selections@.len() as nat,
                    |i: int| dec_rep((i + 1) as nat),
                ));
            }
            Some(RegisterValues::new(numerals))
        } else if name == '.' {
            let vals = clone_string_vec(&ctx.selections);
            proof {
                assert(vals.deep_view() =~= ctx.selections.deep_view());
            }
            Some(RegisterValues::new(vals))
        } else if name == '%' {
            let path = match &ctx.document_path {
                Some(p) => p.clone(),
                None => scratch_buffer_label(),
            };
            Some(single_value(path))
        } else if name == '+' || name == '*' {
            let kind = if name == '+' {
                ClipboardType::Clipboard
            } else {
                ClipboardType::Selection
            };
            let reg = self.get_register(name);
            Some(read_from_clipboard(&self.provider, reg, self.line_ending.as_str(), kind))
        } else {
            match self.get_register(name) {
                Some(reg) => Some(reg.values()),
                None => None,
            }
        }
    }

    /// The first value a read of the name yields, or none when the name is
    /// unset or the computed sequence is empty.
    pub fn first(&self, name: char, ctx: &EditorContext) -> (r: Option<String>)
        requires
            self.wf(),
        ensures
            r matches Some(v) ==> exists|vals: Seq<Seq<char>>|
                #[trigger] self.read_post(name, ctx, Some(vals)) && vals.len() > 0
                && v@ == vals[0],
            r is None ==> self.read_post(name, ctx, None::<Seq<Seq<char>>>) || exists|
                vals: Seq<Seq<char>>,
            | #[trigger] self.read_post(name, ctx, Some(vals)) && vals.len() == 0,
    {
        match self.read(name, ctx) {
            Some(mut vals) => {
                let ghost vv = vals@;
                let r = vals.next();
                proof {
                    assert(self.read_post(name, ctx, Some(vv)));
                }
                r
            },
            None => None,
        }
    }

    /// The last value a read of the name yields, or none when the name is
    /// unset or the computed sequence is empty.
    pub fn last(&self, name: char, ctx: &EditorContext) -> (r: Option<String>)
        requires
            self.wf(),
        ensures
            r matches Some(v) ==> exists|vals: Seq<Seq<char>>|
                #[trigger] self.read_post(name, ctx, Some(vals)) && vals.len() > 0
                && v@ == vals.last(),
            r is None ==> self.read_post(name, ctx, None::<Seq<Seq<char>>>) || exists|
                vals: Seq<Seq<char>>,
            | #[trigger] self.read_post(name, ctx, Some(vals)) && vals.len() == 0,
    {
        match self.read(name, ctx) {
            Some(mut vals) => {
                let ghost vv = vals@;
                let r = vals.next_from_end();
                proof {
                    assert(self.read_post(name, ctx, Some(vv)));
                }
                r
            },
            None => None,
        }
    }
}

impl<P: ClipboardProvider> Registers<P> {
    /// Drops the table entry for a name, reporting whether one existed.
    fn remove_entry(&mut self, name: char) -> (r: bool)
        requires
            old(self).wf(),
        ensures
            final(self).wf(),
            r == old(self).regs().contains_key(name),
            final(self).regs() == old(self).regs().remove(name),
            final(self).bridge() == old(self).bridge(),
            final(self).sep() == old(self).sep(),
            final(self).last_search() == old(self).last_search(),
    {
        let ghost t0 = self.table@;
        match self.find_index(name) {
            Some(i) => {
                proof {
                    lemma_table_view_at(t0, i as int);
                    lemma_table_view_domain(t0, name);
                    lemma_table_view_remove(t0, i as int);
                }
                self.table.remove(i);
                proof {
                    assert(forall|j: int| 0 <= j < self.table@.len()
                        ==> self.table@[j] == if j < i as int { t0[j] } else { t0[j + 1] });
                    assert(self.regs() =~= old(self).regs().remove(name));
                }
                true
            },
            None => {
                proof {
                    lemma_table_view_domain(t0, name);
                    assert(self.regs() =~= old(self).regs().remove(name));
                }
                false
            },
        }
    }

    /// Best-effort sets one clipboard kind to empty content; a backend
    /// failure is swallowed, the external clipboard then simply keeping its
    /// content.
    fn clear_clipboard(&mut self, kind: ClipboardType)
        ensures
            final(self).regs() == old(self).regs(),
            final(self).wf() == old(self).wf(),
            final(self).sep() == old(self).sep(),
            final(self).last_search() == old(self).last_search(),
            final(self).bridge().faithful() == old(self).bridge().faithful(),
            old(self).bridge().faithful() ==> {
                &&& final(self).bridge().contents_model(kind) == Seq::<char>::empty()
                &&& final(self).bridge().contents_model(other_kind(kind))
                    == old(self).bridge().contents_model(other_kind(kind))
            },
    {
        let empty_text = String::new();
        match self.provider.set_contents(empty_text, kind) {
            Ok(_) => (),
            Err(_) => (),
        }
    }

    /// Removes a register. The clipboard names best-effort clear the backing
    /// external clipboard and drop the local cache, always reporting success;
    /// the remaining special names are never stored, so nothing happens and
    /// false is reported; any other name is dropped if present, reporting
    /// whether it was.
    pub fn remove(&mut self, name: char) -> (r: bool)
        requires
            old(self).wf(),
        ensures
            final(self).wf(),
            final(self).sep() == old(self).sep(),
            final(self).last_search() == old(self).last_search(),
            is_clipboard_name(name) ==> {
                &&& r == true
                &&& final(self).regs() == old(self).regs().remove(name)
                &&& final(self).bridge().faithful() == old(self).bridge().faithful()
                &&& old(self).bridge().faithful() ==> {
                    &&& final(self).bridge().contents_model(kind_of(name))
                        == Seq::<char>::empty()
                    &&& final(self).bridge().contents_model(other_kind(kind_of(name)))
                        == old(self).bridge().contents_model(other_kind(kind_of(name)))
                }
            },
            (name == '_' || is_read_only(name)) ==> r == false && final(self).regs()
                == old(self).regs() && final(self).bridge() == old(self).bridge(),
            !is_special(name) ==> {
                &&& r == old(self).regs().contains_key(name)
                &&& final(self).regs() == old(self).regs().remove(name)
                &&& final(self).bridge() == old(self).bridge()
            },
    {
        if name == '+' || name == '*' {
            let kind = if name == '+' {
                ClipboardType::Clipboard
            } else {
                ClipboardType::Selection
            };
            self.clear_clipboard(kind);
            self.remove_entry(name);
            true
        } else if name == '_' || name == '#' || name == '.' || name == '%' {
            false
        } else {
            self.remove_entry(name)
        }
    }

    /// Best-effort resets both clipboard kinds to empty content — a backend
    /// failure on one kind never blocks the other — and unconditionally
    /// empties the whole local mapping: local state is never left
    /// inconsistent because of an external fault.
    pub fn clear(&mut self)
        requires
            old(self).wf(),
        ensures
            final(self).wf(),
            final(self).regs() == Map::<char, Seq<Seq<Seq<char>>>>::empty(),
            final(self).sep() == old(self).sep(),
            final(self).last_search() == old(self).last_search(),
            final(self).bridge().faithful() == old(self).bridge().faithful(),
            old(self).bridge().faithful() ==> {
                &&& final(self).bridge().contents_model(ClipboardType::Clipboard)
                    == Seq::<char>::empty()
                &&& final(self).bridge().contents_model(ClipboardType::Selection)
                    == Seq::<char>::empty()
            },
    {
        self.clear_clipboard(ClipboardType::Clipboard);
        self.clear_clipboard(ClipboardType::Selection);
        self.table.clear();
        proof {
            assert(self.regs() =~= Map::<char, Seq<Seq<Seq<char>>>>::empty());
        }
    }

    /// Exchanges the injected bridge for another, handing the old one back.
    /// The environment outside the store may change a real clipboard's
    /// content at any moment; for an in-process bridge, this models such a
    /// third party.
    pub fn replace_bridge(&mut self, provider: P) -> (r: P)
        ensures
            final(self).bridge() == provider,
            r == old(self).bridge(),
            final(self).regs() == old(self).regs(),
            final(self).wf() == old(self).wf(),
            final(self).sep() == old(self).sep(),
            final(self).last_search() == old(self).last_search(),
    {
        let mut provider = provider;
        core::mem::swap(&mut self.provider, &mut provider);
        provider
    }

    /// The injected bridge's label. Nothing is promised of it: the label is
    /// whatever the backend reports.
    pub fn clipboard_provider_name(&self) -> String {
        self.provider.name()
    }
}

/// The one-line preview of a stored register: the first line of its most
/// recent value, or a fixed empty placeholder when there is no value or the
/// most recent one is empty.
pub open spec fn preview_of(hist: Seq<Seq<Seq<char>>>) -> Seq<char> {
    if last_batch(hist).len() == 0 || last_batch(hist).last().len() == 0 {
        "<empty>"@
    } else {
        first_line(last_batch(hist).last())
    }
}

impl<P: ClipboardProvider> Registers<P> {
    /// Whether one preview entry correctly describes a stored register.
    pub open spec fn preview_entry_ok(&self, entry: (char, String)) -> bool {
        &&& self.regs().contains_key(entry.0)
        &&& !is_clipboard_name(entry.0)
        &&& entry.1@ == preview_of(self.regs()[entry.0])
    }

    /// One preview per concretely stored register — the clipboard caches
    /// excluded — pairing the name with the first line of its most recent
    /// value, followed by one fixed descriptive placeholder per special
    /// name. The order of the stored entries is unspecified.
    pub fn iter_preview(&self) -> (r: Vec<(char, String)>)
        requires
            self.wf(),
        ensures
            r@.len() >= 6,
            forall|k: int| 0 <= k < r@.len() - 6 ==> self.preview_entry_ok(#[trigger] r@[k]),
            forall|k1: int, k2: int| 0 <= k1 < k2 < r@.len() - 6 ==> r@[k1].0 != r@[k2].0,
            forall|name: char| self.regs().contains_key(name) && !is_clipboard_name(name)
                ==> exists|k: int| 0 <= k < r@.len() - 6 && (#[trigger] r@[k]).0 == name,
            r@[r@.len() - 6].0 == '_' && r@[r@.len() - 6].1@ == "<empty>"@,
            r@[r@.len() - 5].0 == '#' && r@[r@.len() - 5].1@ == "<selection indices>"@,
            r@[r@.len() - 4].0 == '.' && r@[r@.len() - 4].1@ == "<selection contents>"@,
            r@[r@.len() - 3].0 == '%' && r@[r@.len() - 3].1@ == "<document path>"@,
            r@[r@.len() - 2].0 == '+' && r@[r@.len() - 2].1@ == "<system clipboard>"@,
            r@[r@.len() - 1].0 == '*' && r@[r@.len() - 1].1@ == "<primary clipboard>"@,
    {
        let mut r: Vec<(char, String)> = Vec::new();
        let mut i: usize = 0;
        while i < self.table.len()
            invariant
                self.wf(),
                i <= self.table@.len(),
                forall|k: int| 0 <= k < r@.len() ==> self.preview_entry_ok(#[trigger] r@[k]),
                forall|k1: int, k2: int| 0 <= k1 < k2 < r@.len() ==> r@[k1].0 != r@[k2].0,
                forall|t: int| 0 <= t < i && !is_clipboard_name(#[trigger] self.table@[t].0)
                    ==> exists|k: int| 0 <= k < r@.len() && (#[trigger] r@[k]).0
                    == self.table@[t].0,
                forall|k: int| 0 <= k < r@.len() ==> exists|t: int| 0 <= t < i
                    && self.table@[t].0 == (#[trigger] r@[k]).0,
            decreases self.table@.len() - i,
        {
            let name = self.table[i].0;
            if !(name == '+' || name == '*') {
                let reg = &self.table[i].1;
                proof {
                    lemma_table_view_at(self.table@, i as int);
                }
                let preview = match reg.latest_value() {
                    Some(v) => {
                        if v.as_str().is_empty() {
                            let label = "<empty>";
                            label.to_owned()
                        } else {
                            first_line_of(v.as_str())
                        }
                    },
                    None => unreached(),
                };
                let ghost r0 = r@;
                r.push((name, preview));
                proof {
                    assert forall|t: int|
                        0 <= t < i + 1 && !is_clipboard_name(#[trigger] self.table@[t].0)
                        implies exists|k: int| 0 <= k < r@.len() && (#[trigger] r@[k]).0
                        == self.table@[t].0 by {
                        if t < i {
                            let k = choose|k: int| 0 <= k < r0.len() && (#[trigger] r0[k]).0
                                == self.table@[t].0;
                            assert(r@[k].0 == self.table@[t].0);
                        } else {
                            assert(r@[r@.len() - 1].0 == self.table@[t].0);
                        }
                    }
                }
            }
            i += 1;
        }
        let ghost stored = r@;
        proof {
            assert forall|name: char|
                self.regs().contains_key(name) && !is_clipboard_name(name) implies exists|k: int|
                0 <= k < stored.len() && (#[trigger] stored[k]).0 == name by {
                lemma_table_view_domain(self.table@, name);
                let t = choose|t: int| 0 <= t < self.table@.len() && self.table@[t].0 == name;
                assert(!is_clipboard_name(self.table@[t].0));
            }
        }
        let e0 = "<empty>";
        r.push(('_', e0.to_owned()));
        let e1 = "<selection indices>";
        r.push(('#', e1.to_owned()));
        let e2 = "<selection contents>";
        r.push(('.', e2.to_owned()));
        let e3 = "<document path>";
        r.push(('%', e3.to_owned()));
        let e4 = "<system clipboard>";
        r.push(('+', e4.to_owned()));
        let e5 = "<primary clipboard>";
        r.push(('*', e5.to_owned()));
        proof {
            assert(r@.len() == stored.len() + 6);
            assert(forall|k: int| 0 <= k < stored.len() ==> r@[k] == stored[k]);
        }
        r
    }
}

/// Law: a write leaves exactly the written batch as what a read of the same
/// name sees: after any store state moves by one write under a writable
/// name, that name is set and its most recent batch is the written one, in
/// order.
pub proof fn lemma_store_write_read<P: ClipboardProvider>(
    s1: Registers<P>,
    s2: Registers<P>,
    name: char,
    batch: Seq<Seq<char>>,
)
    requires
        s2.regs() == s1.regs().insert(name, reg_write(hist_or_empty(s1.regs(), name), batch)),
    ensures
        s2.regs().contains_key(name),
        last_batch(s2.regs()[name]) == batch,
{
}

/// Law: when a faithful bridge holds exactly the cached batch joined with
/// the store's separator — as it does right after a clipboard write — a read
/// of that clipboard register yields the structured batch itself, value
/// boundaries intact, not one joined blob.
pub proof fn lemma_clipboard_round_trip<P: ClipboardProvider>(
    s: Registers<P>,
    name: char,
    vals: Seq<Seq<char>>,
)
    requires
        is_clipboard_name(name),
        s.bridge().faithful(),
        s.regs().contains_key(name),
        last_batch(s.regs()[name]) == vals,
        s.bridge().contents_model(kind_of(name)) == join_with(vals, s.sep()),
    ensures
        forall|out: Seq<Seq<char>>| #[trigger] clipboard_values_post(
            s.bridge(),
            Some(s.regs()[name]),
            s.sep(),
            kind_of(name),
            out,
        ) ==> out == vals,
{
}

/// An owned copy of a list of text values.
fn clone_string_vec(v: &Vec<String>) -> (r: Vec<String>)
    ensures
        r@ == v@,
{
    let r = v.clone();
    proof {
        assert forall|i: int| 0 <= i < r@.len() implies r@[i] == v@[i] by {
            assert(cloned::<String>(v@[i], r@[i]));
        }
        assert(r@ =~= v@);
    }
    r
}

/// One owned value wrapped as a one-element sequence.
fn single_value(contents: String) -> (r: RegisterValues)
    ensures
        r@ == seq![contents@],
{
    let ghost text = contents@;
    let mut v: Vec<String> = Vec::new();
    v.push(contents);
    proof {
        assert(v.deep_view() =~= seq![text]);
    }
    RegisterValues::new(v)
}

/// Reads one clipboard kind through the bridge and reconciles the raw text
/// with the cached register: a backend failure degrades to an empty sequence
/// (read failures are non-fatal); text that matches the cached batch joined
/// with the separator comes back as the structured batch, so multi-value
/// pastes survive a round trip through the clipboard; any other text is one
/// opaque value, the external content being authoritative.
pub fn read_from_clipboard<P: ClipboardProvider>(
    provider: &P,
    register: Option<&Register>,
    line_ending: &str,
    kind: ClipboardType,
) -> (r: RegisterValues)
    requires
        register matches Some(reg) ==> reg.inv(),
    ensures
        clipboard_values_post(
            *provider,
            match register {
                Some(reg) => Some(reg@),
                None => None,
            },
            line_ending@,
            kind,
            r@,
        ),
{
    match provider.get_contents(kind) {
        Err(_) => {
            let empty: Vec<String> = Vec::new();
            proof {
                assert(empty.deep_view() =~= Seq::<Seq<char>>::empty());
            }
            RegisterValues::new(empty)
        },
        Ok(contents) => {
            match register {
                None => single_value(contents),
                Some(reg) => {
                    let matched = match reg.current_batch() {
                        Some(batch) => contents_are_saved(batch, line_ending, contents.as_str()),
                        None => {
                            let e = contents.as_str().is_empty();
                            proof {
                                if contents@.len() == 0 {
                                    assert(contents@ =~= join_with(last_batch(reg@), line_ending@));
                                }
                            }
                            e
                        },
                    };
                    if matched {
                        reg.values()
                    } else {
                        single_value(contents)
                    }
                },
            }
        },
    }
}

} // verus!
