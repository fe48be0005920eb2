//! Record TYPE, TTL and RDLENGTH decoding.

use rdns::resource_record::ResourceRecordType;

#[test]
fn parse_resource_record_type() {
    let data = &[
        (ResourceRecordType::A, [0, 1]),
        (ResourceRecordType::Other(257), [1, 1]),
    ];
    for td in data {
        let result = rdns::resource_record::parse_resource_record_type(td.1);
        assert_eq!(td.0, result);
    }
}

#[test]
fn parse_ttl() {
    let data = [1, 1, 1, 1];
    let result = rdns::resource_record::parse_ttl(data);
    assert_eq!(16843009, result);
}

#[test]
fn parse_resource_data_length() {
    let data = [(0, [0, 0]), (1, [0, 1]), (257, [1, 1])];
    for td in &data {
        let result = rdns::resource_record::parse_resource_data_length(td.1);
        assert_eq!(td.0, result);
    }
}
