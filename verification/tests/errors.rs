use eos_use::utils::errors::{
    convert_error_to_string, convert_error_to_string_send, convert_result_error_to_string,
    convert_result_error_to_string_send, PanicPayload,
};

#[test]
fn payload_messages_are_read() {
    assert_eq!(convert_error_to_string(PanicPayload::Owned(String::from("owned"))), "owned");
    assert_eq!(convert_error_to_string(PanicPayload::Static("static")), "static");
    assert_eq!(convert_error_to_string_send(PanicPayload::Static("big dummy error")), "big dummy error");
}

#[test]
fn results_keep_values_and_convert_errors() {
    assert_eq!(convert_result_error_to_string::<u32>(Ok(5)), Ok(5));
    assert_eq!(
        convert_result_error_to_string::<u32>(Err(PanicPayload::Owned(String::from("boom")))),
        Err(String::from("boom"))
    );
    assert_eq!(convert_result_error_to_string_send::<()>(Ok(())), Ok(()));
    assert_eq!(
        convert_result_error_to_string_send::<()>(Err(PanicPayload::Static("x"))),
        Err(String::from("x"))
    );
}
