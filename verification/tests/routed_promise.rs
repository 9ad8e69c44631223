use pliego_core::routed_promise::{RoutedPromise, RoutedResponse};

#[test]
fn an_answer_is_queued_with_the_lease_in_hand() {
    let mut routed: RoutedPromise<&str, u8> = RoutedPromise::new("promise", Some(1));
    assert_eq!(
        routed.callback_promise::<u32, ()>(Ok(7)),
        RoutedResponse::Queue { promise: "promise", response: 7, external_callback: Some(1) }
    );
    assert_eq!(
        routed.callback_promise::<u32, ()>(Ok(8)),
        RoutedResponse::CalledTwice { external_callback: None }
    );
}

#[test]
fn a_failed_answer_drops_the_promise() {
    let mut routed: RoutedPromise<&str, u8> = RoutedPromise::new("promise", None);
    assert_eq!(
        routed.callback_promise::<u32, &str>(Err("lost")),
        RoutedResponse::Failed { external_callback: None }
    );
    assert_eq!(
        routed.callback_promise::<u32, &str>(Ok(1)),
        RoutedResponse::CalledTwice { external_callback: None }
    );
}
