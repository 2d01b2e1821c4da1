use dialect_ir::builtin_attributes;
use dialect_ir::context::Context;
use dialect_ir::dialect::{Dialect, DialectName};

#[test]
fn parse_dialect() {
    let mut ctx = Context::new();
    builtin_attributes::register(&mut ctx);

    let res = DialectName::parse(&ctx, "non_existant");
    let err_msg = res.err().unwrap().disp();
    assert_eq!(
        err_msg,
        "[<in-memory>: line: 1, column: 1] Compilation error: invalid input program.\nUnregistered dialect non_existant"
    );

    let parsed = DialectName::parse(&ctx, "builtin").unwrap().0;
    assert_eq!(parsed.disp(), "builtin");

    let (prefix, end) = DialectName::parse(&ctx, "builtin.integer").unwrap();
    assert_eq!(prefix.disp(), "builtin");
    assert_eq!(end, 7);
}

#[test]
fn dialect_registration_keeps_first() {
    let mut ctx = Context::new();
    let mut d1 = Dialect::new(DialectName::new("test"));
    d1.add_attr(dialect_ir::dialect::QualifiedId::new("test", "first"));
    d1.register(&mut ctx);
    let d2 = Dialect::new(DialectName::new("test"));
    d2.register(&mut ctx);
    assert!(ctx.is_registered(&DialectName::new("test")));
    let d = Dialect::get_ref(&ctx, DialectName::new("test")).unwrap();
    assert_eq!(d.get_name().disp(), "test");
    assert!(Dialect::get_ref(&ctx, DialectName::new("other")).is_none());
}
