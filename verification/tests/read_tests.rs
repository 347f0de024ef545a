use ethabi::ParamType;
use ethabi::Reader;

#[test]
fn test_read_param() {
    assert_eq!(Reader::read("address").unwrap(), ParamType::Address);
    assert_eq!(Reader::read("bytes").unwrap(), ParamType::Bytes);
    assert_eq!(Reader::read("bytes32").unwrap(), ParamType::FixedBytes(32));
    assert_eq!(Reader::read("bool").unwrap(), ParamType::Bool);
    assert_eq!(Reader::read("string").unwrap(), ParamType::String);
    assert_eq!(Reader::read("int").unwrap(), ParamType::Int(256));
    assert_eq!(Reader::read("uint").unwrap(), ParamType::Uint(256));
    assert_eq!(Reader::read("int32").unwrap(), ParamType::Int(32));
    assert_eq!(Reader::read("uint32").unwrap(), ParamType::Uint(32));
}

#[test]
fn test_read_array_param() {
    assert_eq!(Reader::read("address[]").unwrap(), ParamType::Array(Box::new(ParamType::Address)));
    assert_eq!(Reader::read("uint[]").unwrap(), ParamType::Array(Box::new(ParamType::Uint(256))));
    assert_eq!(Reader::read("bytes[]").unwrap(), ParamType::Array(Box::new(ParamType::Bytes)));
    assert_eq!(
        Reader::read("bool[][]").unwrap(),
        ParamType::Array(Box::new(ParamType::Array(Box::new(ParamType::Bool))))
    );
}

#[test]
fn test_read_fixed_array_param() {
    assert_eq!(
        Reader::read("address[2]").unwrap(),
        ParamType::FixedArray(Box::new(ParamType::Address), 2)
    );
    assert_eq!(
        Reader::read("bool[17]").unwrap(),
        ParamType::FixedArray(Box::new(ParamType::Bool), 17)
    );
    assert_eq!(
        Reader::read("bytes[45][3]").unwrap(),
        ParamType::FixedArray(
            Box::new(ParamType::FixedArray(Box::new(ParamType::Bytes), 45)),
            3
        )
    );
}

#[test]
fn test_read_fixed_tuple_param() {
    assert_eq!(
        Reader::read("tuple(address,bool)").unwrap(),
        ParamType::FixedTuple(vec![ParamType::Address, ParamType::Bool])
    );
    assert_eq!(
        Reader::read("tuple(bool[3],uint256)").unwrap(),
        ParamType::FixedTuple(vec![
            ParamType::FixedArray(Box::new(ParamType::Bool), 3),
            ParamType::Uint(256)
        ])
    );
    assert_eq!(
        Reader::read("tuple(address,bytes)").unwrap(),
        ParamType::Tuple(vec![ParamType::Address, ParamType::Bytes])
    );
    assert_eq!(
        Reader::read("tuple(bool[3],bytes)").unwrap(),
        ParamType::Tuple(vec![
            ParamType::FixedArray(Box::new(ParamType::Bool), 3),
            ParamType::Bytes
        ])
    );
}

#[test]
fn test_read_mixed_arrays() {
    assert_eq!(
        Reader::read("bool[][3]").unwrap(),
        ParamType::FixedArray(Box::new(ParamType::Array(Box::new(ParamType::Bool))), 3)
    );
    assert_eq!(
        Reader::read("bool[3][]").unwrap(),
        ParamType::Array(Box::new(ParamType::FixedArray(Box::new(ParamType::Bool), 3)))
    );
}

#[test]
fn test_read_width_suffixes() {
    assert_eq!(Reader::read("bytes8").unwrap(), ParamType::FixedBytes(8));
    assert_eq!(Reader::read("uint0").unwrap(), ParamType::Uint(0));
    assert_eq!(Reader::read("int999").unwrap(), ParamType::Int(999));
    assert_eq!(Reader::read("uint256").unwrap(), ParamType::Uint(256));
}

#[test]
fn test_read_empty_tuple() {
    assert_eq!(Reader::read("tuple()").unwrap(), ParamType::FixedTuple(vec![]));
}

#[test]
fn test_read_nested_tuples() {
    assert_eq!(
        Reader::read("tuple(tuple(address,bool),bool)").unwrap(),
        ParamType::FixedTuple(vec![
            ParamType::FixedTuple(vec![ParamType::Address, ParamType::Bool]),
            ParamType::Bool
        ])
    );
    assert_eq!(
        Reader::read("tuple(tuple(address,bytes),bool)").unwrap(),
        ParamType::Tuple(vec![
            ParamType::Tuple(vec![ParamType::Address, ParamType::Bytes]),
            ParamType::Bool
        ])
    );
    assert_eq!(
        Reader::read("tuple(tuple(bool))").unwrap(),
        ParamType::FixedTuple(vec![ParamType::FixedTuple(vec![ParamType::Bool])])
    );
}

#[test]
fn test_read_array_of_tuples() {
    assert_eq!(
        Reader::read("tuple(address,bool)[2]").unwrap(),
        ParamType::FixedArray(
            Box::new(ParamType::FixedTuple(vec![ParamType::Address, ParamType::Bool])),
            2
        )
    );
    assert_eq!(
        Reader::read("tuple(bytes)[]").unwrap(),
        ParamType::Array(Box::new(ParamType::Tuple(vec![ParamType::Bytes])))
    );
}
