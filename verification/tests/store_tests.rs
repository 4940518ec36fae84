use registers::clipboard::{ClipboardProvider, ClipboardType, InMemoryClipboard};
use registers::store::{EditorContext, Registers, StoreError};
use registers::values::RegisterValues;

fn collect(mut vals: RegisterValues) -> Vec<String> {
    let mut out = Vec::new();
    while let Some(v) = vals.next() {
        out.push(v);
    }
    out
}

fn strings(items: &[&str]) -> Vec<String> {
    items.iter().map(|s| s.to_string()).collect()
}

fn ctx(selections: &[&str], path: Option<&str>) -> EditorContext {
    EditorContext {
        selections: strings(selections),
        document_path: path.map(|p| p.to_string()),
    }
}

fn store() -> Registers<InMemoryClipboard> {
    Registers::new(InMemoryClipboard::new(), "\n".to_string())
}

/// A bridge whose set calls fail for one kind, as a broken backend would.
struct FlakyClipboard {
    clipboard: String,
    selection: String,
    fail_clipboard_set: bool,
}

impl ClipboardProvider for FlakyClipboard {
    fn name(&self) -> String {
        "flaky".to_string()
    }

    fn get_contents(&self, kind: ClipboardType) -> Result<String, String> {
        match kind {
            ClipboardType::Clipboard => Ok(self.clipboard.clone()),
            ClipboardType::Selection => Ok(self.selection.clone()),
        }
    }

    fn set_contents(&mut self, contents: String, kind: ClipboardType) -> Result<(), String> {
        match kind {
            ClipboardType::Clipboard => {
                if self.fail_clipboard_set {
                    Err("backend failure".to_string())
                } else {
                    self.clipboard = contents;
                    Ok(())
                }
            }
            ClipboardType::Selection => {
                self.selection = contents;
                Ok(())
            }
        }
    }
}

/// A bridge that cannot be read at all.
struct UnreadableClipboard;

impl ClipboardProvider for UnreadableClipboard {
    fn name(&self) -> String {
        "unreadable".to_string()
    }

    fn get_contents(&self, _kind: ClipboardType) -> Result<String, String> {
        Err("no clipboard here".to_string())
    }

    fn set_contents(&mut self, _contents: String, _kind: ClipboardType) -> Result<(), String> {
        Err("no clipboard here".to_string())
    }
}

#[test]
fn write_then_read_yields_values_in_order() {
    let mut s = store();
    s.write('a', strings(&["x", "y"])).unwrap();
    let vals = s.read('a', &ctx(&[], None)).unwrap();
    assert_eq!(collect(vals), strings(&["x", "y"]));
}

#[test]
fn read_of_unset_name_is_none() {
    let s = store();
    assert!(s.read('q', &ctx(&[], None)).is_none());
}

#[test]
fn many_writes_keep_only_recent_history_visible() {
    let mut s = store();
    for i in 0..105 {
        s.write('a', strings(&[&format!("v{}", i)])).unwrap();
    }
    let vals = s.read('a', &ctx(&[], None)).unwrap();
    assert_eq!(collect(vals), strings(&["v104"]));
}

#[test]
fn push_appends_to_current_batch() {
    let mut s = store();
    s.write('a', strings(&["x"])).unwrap();
    s.push('a', "y".to_string()).unwrap();
    let vals = s.read('a', &ctx(&[], None)).unwrap();
    assert_eq!(collect(vals), strings(&["x", "y"]));
}

#[test]
fn push_to_unset_name_creates_one_value_register() {
    let mut s = store();
    s.push('z', "v".to_string()).unwrap();
    let vals = s.read('z', &ctx(&[], None)).unwrap();
    assert_eq!(collect(vals), strings(&["v"]));
}

#[test]
fn black_hole_discards_and_reads_empty() {
    let mut s = store();
    assert!(s.write('_', strings(&["gone"])).is_ok());
    assert!(s.push('_', "gone too".to_string()).is_ok());
    let vals = s.read('_', &ctx(&[], None)).unwrap();
    assert_eq!(collect(vals), Vec::<String>::new());
    assert!(!s.remove('_'));
}

#[test]
fn read_only_registers_reject_write_push_remove() {
    let mut s = store();
    s.write('a', strings(&["keep"])).unwrap();
    for name in ['#', '.', '%'] {
        assert!(matches!(
            s.write(name, strings(&["v"])),
            Err(StoreError::ReadOnlyRegister)
        ));
        assert!(matches!(
            s.push(name, "v".to_string()),
            Err(StoreError::ReadOnlyRegister)
        ));
        assert!(!s.remove(name));
    }
    // nothing was mutated by the rejected operations
    let vals = s.read('a', &ctx(&[], None)).unwrap();
    assert_eq!(collect(vals), strings(&["keep"]));
}

#[test]
fn selection_indices_count_from_one() {
    let s = store();
    let vals = s.read('#', &ctx(&["one", "two", "three"], None)).unwrap();
    assert_eq!(collect(vals), strings(&["1", "2", "3"]));
}

#[test]
fn selection_contents_come_back_in_order() {
    let s = store();
    let vals = s.read('.', &ctx(&["fst", "snd"], None)).unwrap();
    assert_eq!(collect(vals), strings(&["fst", "snd"]));
}

#[test]
fn document_path_register_yields_path_or_placeholder() {
    let s = store();
    let vals = s.read('%', &ctx(&[], Some("/tmp/file.txt"))).unwrap();
    assert_eq!(collect(vals), strings(&["/tmp/file.txt"]));
    let vals = s.read('%', &ctx(&[], None)).unwrap();
    assert_eq!(collect(vals), strings(&["[scratch]"]));
}

#[test]
fn clipboard_write_then_read_preserves_value_boundaries() {
    let mut s = store();
    s.write('+', strings(&["a", "b"])).unwrap();
    // the external clipboard holds the joined blob
    let bridge = s.replace_bridge(InMemoryClipboard::new());
    assert_eq!(bridge.get_contents(ClipboardType::Clipboard).unwrap(), "a\nb");
    s.replace_bridge(bridge);
    // yet the read yields two distinct values, not one joined blob
    let vals = s.read('+', &ctx(&[], None)).unwrap();
    assert_eq!(collect(vals), strings(&["a", "b"]));
}

#[test]
fn selection_register_uses_secondary_kind() {
    let mut s = store();
    s.write('*', strings(&["sel"])).unwrap();
    let bridge = s.replace_bridge(InMemoryClipboard::new());
    assert_eq!(bridge.get_contents(ClipboardType::Selection).unwrap(), "sel");
    assert_eq!(bridge.get_contents(ClipboardType::Clipboard).unwrap(), "");
    s.replace_bridge(bridge);
}

#[test]
fn external_text_not_matching_cache_reads_as_one_value() {
    let mut s = store();
    s.write('+', strings(&["a", "b"])).unwrap();
    let mut bridge = s.replace_bridge(InMemoryClipboard::new());
    bridge
        .set_contents("third party".to_string(), ClipboardType::Clipboard)
        .unwrap();
    s.replace_bridge(bridge);
    let vals = s.read('+', &ctx(&[], None)).unwrap();
    assert_eq!(collect(vals), strings(&["third party"]));
}

#[test]
fn stale_clipboard_fails_push_and_mutates_nothing() {
    let mut s = store();
    s.write('+', strings(&["a", "b"])).unwrap();
    let mut bridge = s.replace_bridge(InMemoryClipboard::new());
    bridge
        .set_contents("tampered".to_string(), ClipboardType::Clipboard)
        .unwrap();
    s.replace_bridge(bridge);
    assert!(matches!(
        s.push('+', "x".to_string()),
        Err(StoreError::StaleClipboard)
    ));
    // the cached batch survived untouched: restore the external text and the
    // structured batch comes back
    let mut bridge = s.replace_bridge(InMemoryClipboard::new());
    bridge
        .set_contents("a\nb".to_string(), ClipboardType::Clipboard)
        .unwrap();
    s.replace_bridge(bridge);
    let vals = s.read('+', &ctx(&[], None)).unwrap();
    assert_eq!(collect(vals), strings(&["a", "b"]));
}

#[test]
fn matching_clipboard_accepts_push_and_prepends_value() {
    let mut s = store();
    s.write('+', strings(&["a", "b"])).unwrap();
    s.push('+', "x".to_string()).unwrap();
    let bridge = s.replace_bridge(InMemoryClipboard::new());
    assert_eq!(
        bridge.get_contents(ClipboardType::Clipboard).unwrap(),
        "x\na\nb"
    );
    s.replace_bridge(bridge);
    // the external text now leads with the pushed value while the cache
    // appends it, so the external content is authoritative and reads as one
    // opaque value
    let vals = s.read('+', &ctx(&[], None)).unwrap();
    assert_eq!(collect(vals), strings(&["x\na\nb"]));
}

#[test]
fn push_to_clipboard_register_without_cache_needs_empty_clipboard() {
    let mut s = store();
    assert!(s.push('+', "x".to_string()).is_ok());
    let vals = s.read('+', &ctx(&[], None)).unwrap();
    assert_eq!(collect(vals), strings(&["x"]));
}

#[test]
fn clipboard_read_failure_degrades_to_empty_sequence() {
    let mut s = Registers::new(UnreadableClipboard, "\n".to_string());
    s.write('a', strings(&["kept"])).unwrap();
    let vals = s.read('+', &ctx(&[], None)).unwrap();
    assert_eq!(collect(vals), Vec::<String>::new());
    // and a push cannot validate the external state, so it fails
    assert!(matches!(
        s.push('+', "x".to_string()),
        Err(StoreError::ClipboardRead(_))
    ));
}

#[test]
fn clipboard_set_failure_propagates_from_write() {
    let mut s = Registers::new(
        FlakyClipboard {
            clipboard: String::new(),
            selection: String::new(),
            fail_clipboard_set: true,
        },
        "\n".to_string(),
    );
    assert!(matches!(
        s.write('+', strings(&["a"])),
        Err(StoreError::ClipboardSet(_))
    ));
    // the selection kind is unaffected by the broken primary kind
    assert!(s.write('*', strings(&["s"])).is_ok());
}

#[test]
fn clear_resets_local_state_even_when_one_backend_kind_errors() {
    let mut s = Registers::new(
        FlakyClipboard {
            clipboard: "seed".to_string(),
            selection: "seed".to_string(),
            fail_clipboard_set: true,
        },
        "\n".to_string(),
    );
    s.write('a', strings(&["x"])).unwrap();
    s.write('*', strings(&["sel"])).unwrap();
    s.clear();
    // every register is gone
    assert!(s.read('a', &ctx(&[], None)).is_none());
    assert_eq!(s.iter_preview().len(), 6);
    // the kind whose backend works was reset; the broken one kept its text
    let bridge = s.replace_bridge(FlakyClipboard {
        clipboard: String::new(),
        selection: String::new(),
        fail_clipboard_set: false,
    });
    assert_eq!(bridge.get_contents(ClipboardType::Selection).unwrap(), "");
    assert_eq!(bridge.get_contents(ClipboardType::Clipboard).unwrap(), "seed");
}

#[test]
fn clear_empties_both_clipboard_kinds() {
    let mut s = store();
    s.write('+', strings(&["c"])).unwrap();
    s.write('*', strings(&["s"])).unwrap();
    s.clear();
    let bridge = s.replace_bridge(InMemoryClipboard::new());
    assert_eq!(bridge.get_contents(ClipboardType::Clipboard).unwrap(), "");
    assert_eq!(bridge.get_contents(ClipboardType::Selection).unwrap(), "");
}

#[test]
fn remove_drops_entries_and_clears_clipboard_names() {
    let mut s = store();
    s.write('a', strings(&["x"])).unwrap();
    s.write('+', strings(&["c"])).unwrap();
    assert!(s.remove('a'));
    assert!(!s.remove('a'));
    assert!(s.remove('+'));
    let bridge = s.replace_bridge(InMemoryClipboard::new());
    assert_eq!(bridge.get_contents(ClipboardType::Clipboard).unwrap(), "");
    s.replace_bridge(bridge);
    // with cache and external text both gone, the read yields one empty value
    let vals = s.read('+', &ctx(&[], None)).unwrap();
    assert_eq!(collect(vals), strings(&[""]));
}

#[test]
fn first_and_last_pick_sequence_ends() {
    let mut s = store();
    s.write('a', strings(&["x", "y", "z"])).unwrap();
    assert_eq!(s.first('a', &ctx(&[], None)).unwrap(), "x");
    assert_eq!(s.last('a', &ctx(&[], None)).unwrap(), "z");
    assert!(s.first('q', &ctx(&[], None)).is_none());
    assert!(s.last('_', &ctx(&[], None)).is_none());
    assert_eq!(s.first('#', &ctx(&["a", "b"], None)).unwrap(), "1");
    assert_eq!(s.last('#', &ctx(&["a", "b"], None)).unwrap(), "2");
}

#[test]
fn iter_preview_lists_stored_registers_and_placeholders() {
    let mut s = store();
    s.write('a', strings(&["hello\nworld"])).unwrap();
    s.write('b', strings(&[""])).unwrap();
    s.write('+', strings(&["clip"])).unwrap();
    let entries = s.iter_preview();
    assert_eq!(entries.len(), 8);
    let lookup = |name: char| {
        entries
            .iter()
            .find(|(n, _)| *n == name)
            .map(|(_, p)| p.clone())
            .unwrap()
    };
    assert_eq!(lookup('a'), "hello");
    assert_eq!(lookup('b'), "<empty>");
    assert_eq!(lookup('_'), "<empty>");
    assert_eq!(lookup('#'), "<selection indices>");
    assert_eq!(lookup('.'), "<selection contents>");
    assert_eq!(lookup('%'), "<document path>");
    assert_eq!(lookup('+'), "<system clipboard>");
    assert_eq!(lookup('*'), "<primary clipboard>");
    // the clipboard cache is not listed as a stored register: '+' occurs
    // once, as a placeholder at the tail
    assert_eq!(entries.iter().filter(|(n, _)| *n == '+').count(), 1);
}

#[test]
fn provider_name_and_search_register_are_exposed() {
    let mut s = store();
    assert_eq!(s.clipboard_provider_name(), "in-memory");
    assert_eq!(s.last_search_register, '/');
    s.last_search_register = 's';
    assert_eq!(s.last_search_register, 's');
}
