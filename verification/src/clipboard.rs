use vstd::prelude::*;

verus! {

/// The two operating-environment clipboard kinds a bridge can address.
#[derive(Clone, Copy, PartialEq, Eq, Structural, Debug)]
pub enum ClipboardType {
    /// The primary clipboard.
    Clipboard,
    /// The secondary selection clipboard, optional on some platforms.
    Selection,
}

/// A bridge to the operating environment's clipboards, injected into the
/// store at construction. The clipboard is a resource shared with the rest
/// of the environment: a backend may fail, and its content may be changed by
/// third parties at any moment, so nothing is promised of an arbitrary
/// backend. A backend that is `faithful` is promised to behave like private
/// storage: reads return exactly what was last set. The in-process backend
/// below is faithful; a backend talking to a real, racily shared clipboard
/// is not, and its callers get only the unconditional guarantees.
pub trait ClipboardProvider: Sized {
    /// Whether this backend behaves like private storage: never fails, and
    /// reads see exactly the modeled contents. A backend talking to a shared
    /// resource leaves this at its default and promises nothing.
    open spec fn faithful(&self) -> bool {
        false
    }

    /// The modeled text of one clipboard kind, meaningful for faithful
    /// backends.
    open spec fn contents_model(&self, kind: ClipboardType) -> Seq<char> {
        Seq::empty()
    }

    /// A short label identifying the backend.
    fn name(&self) -> String;

    /// Reads the current text of one clipboard kind, or reports a backend
    /// failure.
    fn get_contents(&self, kind: ClipboardType) -> (r: Result<String, String>)
        ensures
            self.faithful() ==> r is Ok && (r->Ok_0)@ == self.contents_model(kind),
    ;

    /// Replaces the text of one clipboard kind, or reports a backend
    /// failure.
    fn set_contents(&mut self, contents: String, kind: ClipboardType) -> (r: Result<(), String>)
        ensures
            final(self).faithful() == old(self).faithful(),
            old(self).faithful() ==> {
                &&& r is Ok
                &&& final(self).contents_model(kind) == contents@
                &&& kind is Clipboard ==> final(self).contents_model(ClipboardType::Selection)
                    == old(self).contents_model(ClipboardType::Selection)
                &&& kind is Selection ==> final(self).contents_model(ClipboardType::Clipboard)
                    == old(self).contents_model(ClipboardType::Clipboard)
            },
    ;
}

/// A faithful in-process clipboard: one text slot per kind, shared with
/// nobody. It backs tests and hosts without an external clipboard.
pub struct InMemoryClipboard {
    clipboard: String,
    selection: String,
}

impl InMemoryClipboard {
    /// A fresh in-process clipboard with both kinds empty.
    pub fn new() -> (r: Self)
        ensures
            r.faithful(),
            r.contents_model(ClipboardType::Clipboard) == Seq::<char>::empty(),
            r.contents_model(ClipboardType::Selection) == Seq::<char>::empty(),
    {
        InMemoryClipboard { clipboard: String::new(), selection: String::new() }
    }
}

impl ClipboardProvider for InMemoryClipboard {
    open spec fn faithful(&self) -> bool {
        true
    }

    closed spec fn contents_model(&self, kind: ClipboardType) -> Seq<char> {
        match kind {
            ClipboardType::Clipboard => self.clipboard@,
            ClipboardType::Selection => self.selection@,
        }
    }

    fn name(&self) -> String {
        let label = "in-memory";
        label.to_owned()
    }

    fn get_contents(&self, kind: ClipboardType) -> (r: Result<String, String>) {
        match kind {
            ClipboardType::Clipboard => Ok(self.clipboard.clone()),
            ClipboardType::Selection => Ok(self.selection.clone()),
        }
    }

    fn set_contents(&mut self, contents: String, kind: ClipboardType) -> (r: Result<(), String>) {
        match kind {
            ClipboardType::Clipboard => {
                self.clipboard = contents;
            },
            ClipboardType::Selection => {
                self.selection = contents;
            },
        }
        Ok(())
    }
}

} // verus!
