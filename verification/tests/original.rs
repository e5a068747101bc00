use corn_cob::context::CompileContext;
use corn_cob::preprocessor::preprocess;
use corn_cob::context::nil;

#[test]
fn it_works() {
    assert_eq!(2 + 2, 4);
}

#[test]
fn macro_gulugulu() {
    let mut context: CompileContext = Default::default();
    let r = preprocess(&mut context, &nil());
    assert!(r.is_ok());
}
