use memoleak::channel::{AppContainer, OrderChannel};
use memoleak::key::{translate_to_key, Key, KeyCode, Modifiers};
use memoleak::matcher::{default_bindings, Binding, Matcher, Order};

fn key(c: char) -> Key {
    let mods = Modifiers { shift: false, alt: false, ctrl: false };
    translate_to_key(KeyCode::Char(c), mods).expect("expected a mapped key")
}

#[test]
fn default_table_binds_the_exit_sequence() {
    let bindings = default_bindings().expect("the default table must parse");
    let mut matcher = Matcher::new(bindings);

    // Press Z: the pool holds one key, a viable prefix, nothing emitted.
    assert_eq!(matcher.on_key(key('Z')), None);
    assert_eq!(matcher.pending_len(), 1);

    // Press Z again: exact match, the exit order is emitted, pool empties.
    assert_eq!(matcher.on_key(key('Z')), Some(Order::Exit));
    assert_eq!(matcher.pending_len(), 0);
}

#[test]
fn breaking_key_clears_without_emitting() {
    let bindings = default_bindings().unwrap();
    let mut matcher = Matcher::new(bindings);

    assert_eq!(matcher.on_key(key('Z')), None);
    assert_eq!(matcher.pending_len(), 1);

    // A key that fits no bound sequence clears the pool silently.
    assert_eq!(matcher.on_key(key('q')), None);
    assert_eq!(matcher.pending_len(), 0);

    // The discarded key does not restart matching: the full sequence
    // still works afterwards.
    assert_eq!(matcher.on_key(key('Z')), None);
    assert_eq!(matcher.on_key(key('Z')), Some(Order::Exit));
    assert_eq!(matcher.pending_len(), 0);
}

#[test]
fn unbound_single_key_emits_nothing() {
    let bindings = default_bindings().unwrap();
    let mut matcher = Matcher::new(bindings);

    assert_eq!(matcher.on_key(key('q')), None);
    assert_eq!(matcher.pending_len(), 0);
}

#[test]
fn shorter_binding_shadows_longer_one() {
    // Bind both [Z] and [Z, Z]: the exact lookup runs before the prefix
    // scan, so the one-key binding fires on the first Z and the two-key
    // binding is unreachable.
    let short = Binding::new(vec![key('Z')], Order::Exit);
    let long = Binding::new(vec![key('Z'), key('Z')], Order::Exit);
    let mut matcher = Matcher::new(vec![short, long]);

    assert_eq!(matcher.on_key(key('Z')), Some(Order::Exit));
    assert_eq!(matcher.pending_len(), 0);
    assert_eq!(matcher.on_key(key('Z')), Some(Order::Exit));
    assert_eq!(matcher.pending_len(), 0);
}

#[test]
fn three_key_sequence_resolves_once() {
    let binding = Binding::new(vec![key('a'), key('b'), key('c')], Order::Exit);
    let mut matcher = Matcher::new(vec![binding]);

    assert_eq!(matcher.on_key(key('a')), None);
    assert_eq!(matcher.pending_len(), 1);
    assert_eq!(matcher.on_key(key('b')), None);
    assert_eq!(matcher.pending_len(), 2);
    assert_eq!(matcher.on_key(key('c')), Some(Order::Exit));
    assert_eq!(matcher.pending_len(), 0);
}

#[test]
fn channel_delivers_in_emission_order() {
    let mut channel = OrderChannel::new();
    assert_eq!(channel.len(), 0);

    channel.push(Order::Exit);
    channel.push(Order::Exit);
    assert_eq!(channel.len(), 2);

    let drained = channel.drain();
    assert_eq!(drained, vec![Order::Exit, Order::Exit]);
    assert_eq!(channel.len(), 0);
    assert_eq!(channel.drain(), vec![]);
}

#[test]
fn container_wraps_the_channel() {
    let mut channel = OrderChannel::new();
    channel.push(Order::Exit);
    let mut container = AppContainer::new(channel);
    assert_eq!(container.orders.drain(), vec![Order::Exit]);
}
