use zwork_sidecar::values::{
    branch_tip, branch_tip_inventory_prefix, entry_label, list, operation_preparation_prefix,
    operation_tool_args, operation_tool_args_prefix, operation_tool_memo, operation_tool_memo_prefix,
    pending_tool_output, resolve_list_read_options, session_name, value, Addr, ListReadOptions,
};

fn addr(ns: &str, key: &str) -> Addr {
    Addr { namespace: ns.into(), key: key.into() }
}

#[test]
fn address_validation_messages() {
    assert_eq!(value("", "k").unwrap_err(), "Value namespace must not be empty");
    assert_eq!(value("a\u{0}b", "k").unwrap_err(), "Value namespace must not contain \\u0000");
    assert_eq!(list("app", "x\u{0}").unwrap_err(), "Value key must not contain \\u0000");
    assert_eq!(list("app", "").unwrap(), addr("app", ""));
}

#[test]
fn reserved_address_shapes() {
    assert_eq!(branch_tip("main"), addr("pi.branch.tip", "main"));
    assert_eq!(branch_tip_inventory_prefix(), addr("pi.branch.tip", ""));
    assert_eq!(operation_tool_args("op", "s1", 12), addr("pi.op.tool_args", "op:s1:12"));
    assert_eq!(operation_tool_memo("op", "inv", "read"), addr("pi.op.tool_memo", "op:inv:read"));
    assert_eq!(operation_tool_args_prefix("op", None), addr("pi.op.tool_args", "op:"));
    assert_eq!(operation_tool_args_prefix("op", Some("s")), addr("pi.op.tool_args", "op:s:"));
    assert_eq!(operation_tool_memo_prefix("op", Some("i")), addr("pi.op.tool_memo", "op:i:"));
    assert_eq!(operation_preparation_prefix("op"), addr("pi.op.preparation", "op:"));
    assert_eq!(pending_tool_output("op", "i"), addr("pi.pending.tool_output", "op:i"));
    assert_eq!(session_name(), addr("pi.session.name", ""));
    assert_eq!(entry_label("e1"), addr("pi.entry.label", "e1"));
}

#[test]
fn list_limits_are_clamped() {
    let d = resolve_list_read_options(ListReadOptions::default());
    assert_eq!(d, (None, false, 1000));
    let r = resolve_list_read_options(ListReadOptions { cursor: Some(5), desc: true, limit: Some(0) });
    assert_eq!(r, (Some(5), true, 1));
    let r = resolve_list_read_options(ListReadOptions { cursor: None, desc: false, limit: Some(50_000) });
    assert_eq!(r.2, 10_000);
}
