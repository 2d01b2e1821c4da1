use dialect_ir::location::{Location, Source};
use dialect_ir::result::{Error, ErrorKind};

#[test]
fn wrapped_err() {
    let src = Source::new_from_file("/tmp/test.pliron".to_string());
    let loc1 = Location::SrcPos { src: src.clone(), line: 1, column: 1 };
    let loc2 = Location::SrcPos { src, line: 1, column: 2 };

    let res = Error::with_message(ErrorKind::InvalidInput, "Test error".to_string(), loc2);
    let wrapped_res = Error::wrap(ErrorKind::InvalidInput, res, loc1);
    let expected_err_msg = "[/tmp/test.pliron: line: 1, column: 1] Compilation error: invalid input program.\n[/tmp/test.pliron: line: 1, column: 2] Compilation error: invalid input program.\nTest error";
    assert_eq!(wrapped_res.disp(), expected_err_msg);
}
