use bincode::Options;
use see_k::codec::{check_body, decode, encode};
use see_k::error::TransportError;
use see_k::wire::MAX_MESSAGE_BYTES;
use serde::de::{EnumAccess, Error, VariantAccess, Visitor};

fn options() -> impl Options {
    bincode::DefaultOptions::new()
        .with_fixint_encoding()
        .with_little_endian()
        .with_limit(MAX_MESSAGE_BYTES as u64)
        .reject_trailing_bytes()
}

fn to_body<T: serde::Serialize>(value: &T) -> Result<Vec<u8>, TransportError> {
    encode(options().serialize(value).map_err(|e| e.to_string()))
}

fn to_value<T: serde::de::DeserializeOwned>(body: &[u8]) -> Result<T, TransportError> {
    check_body(body.len())?;
    decode(options().deserialize(body).map_err(|e| e.to_string()))
}

#[derive(Debug, PartialEq)]
struct Command(u64);

impl serde::Serialize for Command {
    fn serialize<S: serde::Serializer>(&self, serializer: S) -> Result<S::Ok, S::Error> {
        serializer.serialize_newtype_struct("Command", &self.0)
    }
}

impl<'de> serde::Deserialize<'de> for Command {
    fn deserialize<D: serde::Deserializer<'de>>(deserializer: D) -> Result<Self, D::Error> {
        <u64 as serde::Deserialize>::deserialize(deserializer).map(Command)
    }
}

struct Normalized(String);

impl serde::Serialize for Normalized {
    fn serialize<S: serde::Serializer>(&self, serializer: S) -> Result<S::Ok, S::Error> {
        serializer.serialize_newtype_struct("Normalized", &self.0)
    }
}

impl<'de> serde::Deserialize<'de> for Normalized {
    fn deserialize<D: serde::Deserializer<'de>>(deserializer: D) -> Result<Self, D::Error> {
        let text = <String as serde::Deserialize>::deserialize(deserializer)?;
        Ok(Normalized(text.trim().to_owned()))
    }
}

/// An enum with the one variant `A`.
struct Tag;

struct TagVisitor;

impl<'de> Visitor<'de> for TagVisitor {
    type Value = Tag;

    fn expecting(&self, formatter: &mut std::fmt::Formatter<'_>) -> std::fmt::Result {
        formatter.write_str("variant A")
    }

    fn visit_enum<A: EnumAccess<'de>>(self, data: A) -> Result<Tag, A::Error> {
        let (index, variant): (u32, A::Variant) = data.variant()?;
        if index != 0 {
            return Err(A::Error::custom("unknown variant"));
        }
        variant.unit_variant()?;
        Ok(Tag)
    }
}

impl<'de> serde::Deserialize<'de> for Tag {
    fn deserialize<D: serde::Deserializer<'de>>(deserializer: D) -> Result<Self, D::Error> {
        deserializer.deserialize_enum("Tag", &["A"], TagVisitor)
    }
}

#[test]
fn normalized_values_have_explicit_frame_boundaries() {
    let body = to_body(&Normalized(" hello ".into())).unwrap();
    let value: Normalized = to_value(&body).unwrap();
    assert_eq!(value.0, "hello");
}

#[test]
fn malformed_and_trailing_bytes_are_errors() {
    assert!(to_value::<Tag>(&[255; 4]).is_err());
    let mut valid = to_body(&Command(9)).unwrap();
    valid.push(0);
    assert!(to_value::<Command>(&valid).is_err());
}

#[test]
fn well_formed_values_come_back() {
    assert!(to_value::<Tag>(&[0; 4]).is_ok());
    let body = to_body(&Command(9)).unwrap();
    assert_eq!(body, vec![9, 0, 0, 0, 0, 0, 0, 0]);
    assert_eq!(to_value::<Command>(&body).unwrap(), Command(9));
}

#[test]
fn codec_faults_are_reported() {
    let error = to_value::<Command>(&[255]).unwrap_err();
    assert!(error.message().starts_with("seek invalid frame: "));
    let error = encode(Err("why".to_string())).unwrap_err();
    assert_eq!(error.message(), "seek encode: why");
}

#[test]
fn bodies_over_the_limit_are_refused() {
    assert!(check_body(MAX_MESSAGE_BYTES).is_ok());
    assert!(matches!(check_body(MAX_MESSAGE_BYTES + 1), Err(TransportError::MessageTooLarge)));
    let largest = vec![0; MAX_MESSAGE_BYTES];
    assert_eq!(encode(Ok(largest)).unwrap().len(), MAX_MESSAGE_BYTES);
    let error = encode(Ok(vec![0; MAX_MESSAGE_BYTES + 1])).unwrap_err();
    assert_eq!(error.message(), "seek message exceeds 64 MiB");
}
