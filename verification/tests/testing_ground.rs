use sts1_edu_scheduler::communication::cep::MAXIMUM_DATA_LENGTH;

#[test]
fn test_names() {}

#[test]
fn maximum_data_length_is_eleven_kibibytes() {
    assert_eq!(MAXIMUM_DATA_LENGTH, 11 * 1024);
}
