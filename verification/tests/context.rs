use lang_turtle::context::{Context, ContextKind, TokenIdx};
use lang_turtle::lexer::parse_tokens_str;

#[test]
fn roles_are_found_through_the_diff() {
    let old = parse_tokens_str("<a> <b> <c> .").0;
    let new = parse_tokens_str("<x> <a> <b> <c> .").0;
    let mut context = Context::new();
    context.add_subject(0);
    context.add(1, ContextKind::Predicate);
    context.add_object(2);
    context.setup_current_to_prev(
        TokenIdx { tokens: &new },
        new.len(),
        TokenIdx { tokens: &old },
        old.len(),
    );
    let ctx = context.ctx();
    assert!(ctx.find_was(0).is_none());
    assert!(matches!(ctx.find_was(1), Some(ContextKind::Subject)));
    assert!(matches!(ctx.find_was(2), Some(ContextKind::Predicate)));
    assert!(matches!(ctx.find_was(3), Some(ContextKind::Object)));
    assert!(ctx.was_subject(1));
    assert!(!ctx.was_subject(2));
    assert!(ctx.was_predicate(2));
    assert!(ctx.was_object(3));
    assert!(ctx.was(3, ContextKind::Object));
    assert!(!ctx.was(3, ContextKind::Subject));
}

#[test]
fn clear_forgets_everything() {
    let old = parse_tokens_str("<a> .").0;
    let mut context = Context::new();
    context.add_subject(0);
    context.setup_current_to_prev(TokenIdx { tokens: &old }, old.len(), TokenIdx { tokens: &old }, old.len());
    assert!(context.ctx().was_subject(0));
    context.clear();
    assert!(!context.ctx().was_subject(0));
    assert!(context.ctx().find_was(0).is_none());
}

#[test]
fn kinds_as_words() {
    assert_eq!(ContextKind::Subject.to_string(), "subject");
    assert_eq!(ContextKind::Predicate.to_string(), "predicate");
    assert_eq!(ContextKind::Object.to_string(), "object");
}
