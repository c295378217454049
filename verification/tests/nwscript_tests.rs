use ox::nwscript::line_comment;

#[test]
fn function() {
    assert!(ox::nwscript::function(b"void foo() = 0;").is_ok());
    assert!(ox::nwscript::function(b"int foo(string x = \"\") = 10;").is_ok());
    assert!(ox::nwscript::function(b"int foo(string x = \"\") = 10;").is_ok());

    assert!(ox::nwscript::function(b"void foo();").is_err());
}

#[test]
fn line_comments() {
    assert!(line_comment(b"//this is a comment\n").is_ok());
    assert!(ox::nwscript::function(b"int foo(string x = \"\")//hi\n = 10;").is_ok());
}
