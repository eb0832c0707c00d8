//! Tests of the pointer peripheral's data record.

use xila_fs::pointer::{Point_type, Pointer_data_type, Touch_type};

#[test]
fn the_record_holds_what_it_was_given() {
    let Data = Pointer_data_type::New(Point_type::New(10, 20), Touch_type::Pressed);
    assert_eq!(*Data.Get_point(), Point_type::New(10, 20));
    assert_eq!(*Data.Get_touch(), Touch_type::Pressed);
    assert_eq!(Data.Get_point().Get_x(), 10);
    assert_eq!(Data.Get_point().Get_y(), 20);
}

#[test]
fn setters_replace_their_field() {
    let mut Data = Pointer_data_type::default();
    assert_eq!(*Data.Get_point(), Point_type::New(0, 0));
    assert_eq!(*Data.Get_touch(), Touch_type::Released);
    Data.Set_point(Point_type::New(-3, 7));
    assert_eq!(*Data.Get_point(), Point_type::New(-3, 7));
    assert_eq!(*Data.Get_touch(), Touch_type::Released);
    Data.Set_touch(Touch_type::Pressed);
    assert_eq!(*Data.Get_touch(), Touch_type::Pressed);
    Data.Set_state(Point_type::New(1, 2), Touch_type::Released);
    assert_eq!(*Data.Get_point(), Point_type::New(1, 2));
    assert_eq!(*Data.Get_touch(), Touch_type::Released);
}

#[test]
fn touch_states_travel_as_bytes() {
    assert_eq!(Touch_type::Pressed.As_u8(), 0);
    assert_eq!(Touch_type::Released.As_u8(), 1);
    assert_eq!(Touch_type::From_u8(0), Some(Touch_type::Pressed));
    assert_eq!(Touch_type::From_u8(1), Some(Touch_type::Released));
    assert_eq!(Touch_type::From_u8(2), None);
    assert_eq!(Touch_type::From_u8(255), None);
    // the byte form round-trips
    assert_eq!(
        Touch_type::From_u8(Touch_type::Pressed.As_u8()),
        Some(Touch_type::Pressed)
    );
    assert_eq!(
        Touch_type::From_u8(Touch_type::Released.As_u8()),
        Some(Touch_type::Released)
    );
}

#[test]
fn records_round_trip_through_bytes() {
    let Cases = vec![
        Pointer_data_type::New(Point_type::New(0, 0), Touch_type::Released),
        Pointer_data_type::New(Point_type::New(800, 480), Touch_type::Pressed),
        Pointer_data_type::New(Point_type::New(-1, i16::MIN), Touch_type::Pressed),
        Pointer_data_type::New(Point_type::New(i16::MAX, -32000), Touch_type::Released),
    ];
    for Data in Cases {
        let Bytes = Data.To_bytes();
        assert_eq!(Bytes.len(), 5);
        let Decoded = Pointer_data_type::From_bytes(&Bytes).unwrap();
        assert_eq!(Decoded, Data);
    }
}

#[test]
fn bad_byte_runs_decode_to_nothing() {
    assert_eq!(Pointer_data_type::From_bytes(&vec![0u8; 4]), None);
    assert_eq!(Pointer_data_type::From_bytes(&vec![0u8; 6]), None);
    assert_eq!(Pointer_data_type::From_bytes(&vec![0, 0, 0, 0, 7]), None);
    // an exact expected value for one encoding
    let Data = Pointer_data_type::New(Point_type::New(258, 3), Touch_type::Released);
    assert_eq!(Data.To_bytes(), vec![2u8, 1, 3, 0, 1]);
}
