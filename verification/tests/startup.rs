use vibe_rt::{entry_layout, Args, Env};

#[test]
fn arguments_come_out_in_order_byte_for_byte() {
    let values: [&[u8]; 3] = [b"/bin/init", b"--flag", b"\xff\xfe"];
    let mut args = Args::new(&values);
    assert_eq!(args.len(), 3);
    assert_eq!(args.next(), Some(&b"/bin/init"[..]));
    assert_eq!(args.next(), Some(&b"--flag"[..]));
    assert_eq!(args.next(), Some(&b"\xff\xfe"[..]));
    assert_eq!(args.next(), None);
    assert_eq!(args.next(), None);
    assert_eq!(args.len(), 0);
}

#[test]
fn environment_lookup_finds_the_first_definition() {
    let entries: [&[u8]; 5] = [b"NOSEPARATOR", b"PATH=/bin", b"HOME=/root", b"PATH=/usr/bin", b"EMPTY="];
    let env = Env::new(&entries);
    assert_eq!(env.get(b"PATH"), Some(&b"/bin"[..]));
    assert_eq!(env.get(b"HOME"), Some(&b"/root"[..]));
    assert_eq!(env.get(b"EMPTY"), Some(&b""[..]));
    assert_eq!(env.get(b"PAT"), None);
    assert_eq!(env.get(b"NOSEPARATOR"), None);
    assert_eq!(env.get(b"USER"), None);
}

#[test]
fn environment_value_keeps_later_separators() {
    let entries: [&[u8]; 1] = [b"A=b=c"];
    let env = Env::new(&entries);
    assert_eq!(env.get(b"A"), Some(&b"b=c"[..]));
    assert_eq!(env.get(b"A=b"), None);
}

#[test]
fn environment_lookup_starts_at_the_current_entry() {
    let entries: [&[u8]; 2] = [b"X=1", b"X=2"];
    let mut env = Env::new(&entries);
    assert_eq!(env.next(), Some(&b"X=1"[..]));
    assert_eq!(env.get(b"X"), Some(&b"2"[..]));
    assert_eq!(env.next(), Some(&b"X=2"[..]));
    assert_eq!(env.next(), None);
    assert_eq!(env.get(b"X"), None);
}

#[test]
fn entry_stack_layout() {
    let layout = entry_layout(3);
    assert_eq!(layout.arguments, 1);
    assert_eq!(layout.environment, 4);
    assert_eq!(entry_layout(0).environment, 1);
}
