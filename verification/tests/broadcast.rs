use asyncsync::channel::broadcast::{channel, Inner};

#[test]
fn broadcast_channel_creates_both_halves() {
    let (_tx, _rx) = channel::<u32>(4);
}

#[test]
fn broadcast_inner_has_requested_size() {
    let _inner = Inner::<String>::new(0);
    let _inner = Inner::<String>::new(16);
}
