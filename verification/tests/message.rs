use byteorder::{LittleEndian, ReadBytesExt, WriteBytesExt};
use rust_game_networking::message::NetworkMessage;

#[derive(Debug, Clone, Copy, PartialEq, Eq)]
struct TestMessage {
    value: u64,
}

impl NetworkMessage for TestMessage {
    type Error = std::io::Error;

    fn serialize(&self, writer: &mut Vec<u8>) -> Result<(), Self::Error> {
        writer.write_u64::<LittleEndian>(self.value)?;
        Ok(())
    }

    fn deserialize(reader: &[u8]) -> Result<(Self, usize), Self::Error> {
        let mut rest = reader;
        let value = rest.read_u64::<LittleEndian>()?;
        Ok((TestMessage { value }, reader.len() - rest.len()))
    }
}

#[test]
fn message_round_trip() {
    let mut bytes = Vec::new();
    TestMessage { value: 7 }.serialize(&mut bytes).unwrap();
    assert_eq!(bytes, vec![7, 0, 0, 0, 0, 0, 0, 0]);
    let (message, taken) = TestMessage::deserialize(&bytes).unwrap();
    assert_eq!(message, TestMessage { value: 7 });
    assert_eq!(taken, 8);
}
