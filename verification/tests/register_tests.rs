use registers::clipboard::{ClipboardProvider, ClipboardType, InMemoryClipboard};
use registers::register::{Register, MAX_REGISTER_HISTORY_LEN};
use registers::store::read_from_clipboard;
use registers::values::RegisterValues;

fn collect(mut vals: RegisterValues) -> Vec<String> {
    let mut out = Vec::new();
    while let Some(v) = vals.next() {
        out.push(v);
    }
    out
}

fn strings(items: &[&str]) -> Vec<String> {
    items.iter().map(|s| s.to_string()).collect()
}

#[test]
fn write_then_values_yields_batch_in_order() {
    let mut reg = Register::new();
    reg.write(strings(&["alpha", "beta", "gamma"]));
    assert_eq!(collect(reg.values()), strings(&["alpha", "beta", "gamma"]));
}

#[test]
fn values_exposes_only_most_recent_batch() {
    let mut reg = Register::new();
    reg.write(strings(&["old"]));
    reg.write(strings(&["new1", "new2"]));
    assert_eq!(collect(reg.values()), strings(&["new1", "new2"]));
    assert_eq!(reg.history_len(), 2);
}

#[test]
fn history_never_exceeds_bound_plus_one() {
    let mut reg = Register::new();
    for i in 0..(MAX_REGISTER_HISTORY_LEN + 40) {
        reg.write(strings(&[&format!("batch{}", i)]));
        assert!(reg.history_len() <= MAX_REGISTER_HISTORY_LEN + 1);
    }
    assert_eq!(reg.history_len(), MAX_REGISTER_HISTORY_LEN + 1);
    // the visible batch is always the most recent one
    assert_eq!(
        collect(reg.values()),
        strings(&[&format!("batch{}", MAX_REGISTER_HISTORY_LEN + 39)])
    );
}

#[test]
fn push_appends_without_discarding_prior_batches() {
    let mut reg = Register::new();
    reg.write(strings(&["first batch"]));
    reg.write(strings(&["a", "b"]));
    reg.push("c".to_string());
    assert_eq!(reg.history_len(), 2);
    assert_eq!(collect(reg.values()), strings(&["a", "b", "c"]));
}

#[test]
fn push_into_empty_register_creates_one_value_batch() {
    let mut reg = Register::new();
    reg.push("only".to_string());
    assert_eq!(reg.history_len(), 1);
    assert_eq!(collect(reg.values()), strings(&["only"]));
}

#[test]
fn latest_value_is_tail_of_history() {
    let mut reg = Register::new();
    assert!(reg.latest_value().is_none());
    reg.write(strings(&["x", "y"]));
    assert_eq!(reg.latest_value().unwrap(), "y");
    reg.push("z".to_string());
    assert_eq!(reg.latest_value().unwrap(), "z");
}

#[test]
fn clipboard_read_reconciles_against_cached_batch() {
    let mut bridge = InMemoryClipboard::new();
    bridge
        .set_contents("a\nb".to_string(), ClipboardType::Clipboard)
        .unwrap();
    let mut reg = Register::new();
    reg.write(strings(&["a", "b"]));
    // matching external text comes back structured
    let vals = read_from_clipboard(&bridge, Some(&reg), "\n", ClipboardType::Clipboard);
    assert_eq!(collect(vals), strings(&["a", "b"]));
    // without a cache the raw text is one opaque value
    let vals = read_from_clipboard(&bridge, None, "\n", ClipboardType::Clipboard);
    assert_eq!(collect(vals), strings(&["a\nb"]));
}

#[test]
fn register_values_consume_from_both_ends() {
    let mut vals = RegisterValues::new(strings(&["a", "b", "c"]));
    assert_eq!(vals.remaining_length(), 3);
    assert_eq!(vals.next().unwrap(), "a");
    assert_eq!(vals.next_from_end().unwrap(), "c");
    assert_eq!(vals.remaining_length(), 1);
    assert_eq!(vals.next().unwrap(), "b");
    assert!(vals.next().is_none());
    assert!(vals.next_from_end().is_none());
    assert_eq!(vals.remaining_length(), 0);
}
