use ethercat_master::error::CommonError;
use ethercat_master::ethercat_frame::EtherCATFrame;
use ethercat_master::ethercat_frame::frame_pdus;
use ethercat_master::ethercat_frame::frame_well_formed;
use ethercat_master::ethercat_frame::parse_pdus;
use ethercat_master::ethercat_frame::pdus_valid;
use ethercat_master::ethercat_frame::read_pdu;
use ethercat_master::ethercat_frame::write_pdu;
use ethercat_master::interface::check_wkc;
use ethercat_master::interface::Command;
use ethercat_master::interface::EtherCATInterface;
use ethercat_master::interface::get_ap_adp;
use ethercat_master::interface::poll_result;
use ethercat_master::interface::RxRes;
use ethercat_master::interface::SlaveAddress;
use ethercat_master::interface::TargetSlave;
use ethercat_master::interface::TimerState;
use ethercat_master::packet::CommandType;

const MASTER: [u8; 6] = [0x02, 0, 0, 0, 0, 0x01];
const SLAVE: [u8; 6] = [0x03, 0, 0, 0, 0, 0x01];

fn brd(ado: u16) -> Command {
    Command::new(CommandType::BRD, 0, ado)
}

/// A frame from a slave with one broadcast read per entry: its index and
/// the length of its payload.
fn frame_of(pdus: &[(u8, usize)]) -> Vec<u8> {
    let mut buffer = vec![0u8; 2100];
    let mut frame = EtherCATFrame::new_unchecked(&mut buffer);
    assert!(frame.init(SLAVE));
    for (index, len) in pdus {
        assert!(frame.add_command(CommandType::BRD, 0, *index as u16, &vec![*index; *len], Some(*index)));
    }
    frame.as_bytes().to_vec()
}

fn reply_of(frame: &[u8]) -> Vec<u8> {
    let mut reply = frame.to_vec();
    reply[6..12].copy_from_slice(&SLAVE);
    reply
}

#[test]
fn new_interface_is_empty() {
    let mut buffer = [0u8; 100];
    let iface = EtherCATInterface::new(&mut buffer, 1500, MASTER);
    assert_eq!(iface.data_size(), 0);
    assert_eq!(iface.max_transmission_unit(), 1500);
    assert_eq!(iface.remaing_capacity(), 96);
    assert!(!iface.awaiting_frames());
    assert!(iface.transmit().is_empty());
    assert!(iface.peek_command().is_empty());
}

#[test]
fn mtu_is_capped_at_what_a_frame_can_state() {
    let mut buffer = [0u8; 100];
    let iface = EtherCATInterface::new(&mut buffer, 9000, MASTER);
    assert_eq!(iface.max_transmission_unit(), 2063);
}

#[test]
fn remaining_capacity_follows_the_formula() {
    let mut buffer = [0u8; 60];
    let mut iface = EtherCATInterface::new(&mut buffer, 1500, MASTER);
    assert_eq!(iface.remaing_capacity(), 60 - 0 - 2 - 2);
    iface.add_command(0, brd(0x10), 20, &[9; 20]).unwrap();
    assert_eq!(iface.data_size(), 32);
    assert_eq!(iface.remaing_capacity(), 60 - 32 - 2 - 2);
    iface.add_command(1, brd(0x10), 13, &[9; 13]).unwrap();
    assert_eq!(iface.data_size(), 57);
    assert_eq!(iface.remaing_capacity(), 0);
}

#[test]
fn add_command_round_trip() {
    let mut buffer = [0xEEu8; 200];
    let mut iface = EtherCATInterface::new(&mut buffer, 1500, MASTER);
    let commands = [
        (3u8, Command::new(CommandType::FPRD, 0x1001, 0x0130), vec![1u8, 2, 3]),
        (0u8, Command::new(CommandType::BWR, 0, 0x0120), vec![]),
        (255u8, Command::new(CommandType::APWR, 0xFFFF, 0x0500), vec![0xAA; 40]),
        (3u8, Command::new(CommandType::LRW, 0x1234, 0xABCD), vec![7u8; 5]),
    ];
    let mut size = 0;
    for (index, command, data) in &commands {
        assert_eq!(iface.add_command(*index, *command, data.len(), data), Ok(()));
        size += 12 + data.len();
        assert_eq!(iface.data_size(), size);
    }
    {
        let peeked = iface.peek_command();
        assert_eq!(peeked.len(), 4);
    }
    {
        let pdus = iface.consume_command();
        assert_eq!(pdus.len(), commands.len());
        for (pdu, (index, command, data)) in pdus.iter().zip(&commands) {
            assert_eq!(pdu.index, *index);
            assert_eq!(pdu.command, *command);
            assert_eq!(pdu.data, &data[..]);
            assert_eq!(pdu.wkc, 0);
        }
    }
    assert_eq!(iface.data_size(), 0);
    assert!(iface.consume_command().is_empty());
}

#[test]
fn add_command_pads_the_payload_with_zeros() {
    let mut buffer = [0xEEu8; 64];
    let mut iface = EtherCATInterface::new(&mut buffer, 1500, MASTER);
    iface.add_command(1, brd(0x130), 6, &[5, 6]).unwrap();
    iface.add_command(2, brd(0x130), 2, &[1, 2, 3, 4]).unwrap();
    let pdus = iface.consume_command();
    assert_eq!(pdus[0].data, &[5, 6, 0, 0, 0, 0]);
    assert_eq!(pdus[1].data, &[1, 2]);
}

#[test]
fn add_command_fails_when_the_buffer_is_full() {
    let mut buffer = [0u8; 60];
    let mut iface = EtherCATInterface::new(&mut buffer, 1500, MASTER);
    assert_eq!(iface.add_command(0, brd(0), 49, &[0; 49]), Err(CommonError::BufferExhausted));
    assert_eq!(iface.data_size(), 0);
    assert_eq!(iface.add_command(0, brd(0), 48, &[0; 48]), Ok(()));
    assert_eq!(iface.data_size(), 60);
    assert_eq!(iface.add_command(1, brd(0), 0, &[]), Err(CommonError::BufferExhausted));
    assert_eq!(iface.consume_command().len(), 1);
}

#[test]
fn add_command_fails_when_the_mtu_is_too_small() {
    let mut buffer = [0u8; 400];
    let mut iface = EtherCATInterface::new(&mut buffer, 128, MASTER);
    assert_eq!(iface.add_command(0, brd(0), 101, &[0; 101]), Err(CommonError::BufferExhausted));
    assert_eq!(iface.add_command(0, brd(0), 100, &[0; 100]), Ok(()));
    let frames = iface.transmit();
    assert_eq!(frames.len(), 1);
    assert_eq!(frames[0].len(), 128);

    let mut small = [0u8; 400];
    let mut tiny = EtherCATInterface::new(&mut small, 27, MASTER);
    assert_eq!(tiny.add_command(0, brd(0), 0, &[]), Err(CommonError::BufferExhausted));
}

#[test]
fn transmit_builds_one_frame() {
    let mut buffer = [0u8; 200];
    let mut iface = EtherCATInterface::new(&mut buffer, 1500, MASTER);
    iface.add_command(4, Command::new(CommandType::FPRD, 0x1001, 0x0130), 2, &[0xAB, 0xCD]).unwrap();
    iface.add_command(9, Command::new(CommandType::BWR, 0, 0x0120), 1, &[0x11]).unwrap();
    let frames = iface.transmit();
    assert_eq!(frames.len(), 1);
    let expected: Vec<u8> = vec![
        0xFF, 0xFF, 0xFF, 0xFF, 0xFF, 0xFF, 0x02, 0, 0, 0, 0, 0x01, 0x88, 0xA4, // Ethernet
        27, 0x10, // EtherCAT: 27 bytes of PDUs, type 1
        0x04, 4, 0x01, 0x10, 0x30, 0x01, 2, 0x80, 0, 0, 0xAB, 0xCD, 0, 0, // FPRD, more follows
        0x08, 9, 0, 0, 0x20, 0x01, 1, 0, 0, 0, 0x11, 0, 0, // BWR, last
    ];
    assert_eq!(frames[0], expected);
    assert_eq!(iface.data_size(), 27);
}

#[test]
fn transmit_respects_the_mtu() {
    let mut buffer = [0u8; 2000];
    let mut iface = EtherCATInterface::new(&mut buffer, 128, MASTER);
    let sizes = [50usize, 30, 10, 100, 0, 0, 88, 12, 64, 36, 1];
    for (i, size) in sizes.iter().enumerate() {
        iface.add_command(i as u8, brd(i as u16), *size, &vec![i as u8; *size]).unwrap();
    }
    let frames = iface.transmit();
    let mut seen = vec![];
    for frame in &frames {
        assert!(frame.len() <= 128);
        let region = frame[14] as usize + 256 * (frame[15] as usize % 8);
        assert_eq!(frame.len(), 16 + region);
        assert!(pdus_valid(frame, 16, frame.len()));
        let pdus = parse_pdus(frame, 16, frame.len());
        assert!(!pdus.is_empty());
        for pdu in pdus {
            seen.push((pdu.index, pdu.data.len()));
        }
    }
    let expected: Vec<(u8, usize)> = sizes.iter().enumerate().map(|(i, s)| (i as u8, *s)).collect();
    assert_eq!(seen, expected);
    // 62 + 42 fit, + 22 would make 126 > 112; then 22 alone before the 112.
    let counts: Vec<usize> =
        frames.iter().map(|f| parse_pdus(f, 16, f.len()).len()).collect();
    assert_eq!(counts, vec![2, 1, 1, 2, 1, 2, 2]);
}

#[test]
fn receive_frame_takes_replies_in_order() {
    let mut buffer = [0u8; 200];
    let mut iface = EtherCATInterface::new(&mut buffer, 64, MASTER);
    iface.add_command(0, brd(1), 20, &[1; 20]).unwrap();
    iface.add_command(1, brd(2), 20, &[2; 20]).unwrap();
    let frames = iface.transmit();
    assert_eq!(frames.len(), 2);
    iface.frame_sent();
    iface.frame_sent();
    assert!(iface.awaiting_frames());
    iface.clear();
    assert_eq!(iface.data_size(), 0);
    let mut first = reply_of(&frames[0]);
    first[16 + 10 + 20] = 3;
    assert!(iface.receive_frame(&first));
    assert!(iface.awaiting_frames());
    assert!(iface.receive_frame(&reply_of(&frames[1])));
    assert!(!iface.awaiting_frames());
    assert_eq!(iface.data_size(), 64);
    let pdus = iface.consume_command();
    assert_eq!(pdus.len(), 2);
    assert_eq!((pdus[0].index, pdus[0].wkc), (0, 3));
    assert_eq!((pdus[1].index, pdus[1].wkc), (1, 0));
    assert_eq!(pdus[1].data, &[2; 20]);
}

#[test]
fn receive_frame_ignores_other_frames() {
    let mut buffer = [0u8; 100];
    let mut iface = EtherCATInterface::new(&mut buffer, 1500, MASTER);
    iface.add_command(0, brd(1), 4, &[1; 4]).unwrap();
    let frame = iface.transmit().remove(0);
    let good = reply_of(&frame);

    // no frame is awaited
    iface.clear();
    assert!(!iface.receive_frame(&good));
    iface.frame_sent();

    // the master's own frame
    assert!(!iface.receive_frame(&frame));
    // another EtherType
    let mut other = good.clone();
    other[12] = 0x08;
    other[13] = 0x00;
    assert!(!iface.receive_frame(&other));
    // not a frame of PDUs
    let mut kind = good.clone();
    kind[15] = 0x40;
    assert!(!iface.receive_frame(&kind));
    // the reserved bit set
    let mut reserved = good.clone();
    reserved[15] |= 0x08;
    assert!(!iface.receive_frame(&reserved));
    // shorter than its headers, and shorter than it says
    assert!(!iface.receive_frame(&good[..10]));
    assert!(!iface.receive_frame(&good[..good.len() - 1]));
    // a PDU that runs over the end of the PDUs
    let mut broken = good.clone();
    broken[16 + 6] = 5;
    assert!(!iface.receive_frame(&broken));
    // nothing of this was counted or kept
    assert!(iface.awaiting_frames());
    assert_eq!(iface.data_size(), 0);

    assert!(iface.receive_frame(&good));
    assert!(!iface.awaiting_frames());
    assert_eq!(iface.data_size(), 16);
}

#[test]
fn receive_frame_needs_room_and_respects_the_mtu() {
    let mut buffer = [0u8; 30];
    let mut iface = EtherCATInterface::new(&mut buffer, 60, MASTER);
    iface.frame_sent();
    let frame = frame_of(&[(1, 20)]);
    assert_eq!(frame.len(), 48);
    assert!(!iface.receive_frame(&frame));
    let fits = frame_of(&[(1, 18)]);
    assert!(iface.receive_frame(&fits));
    assert_eq!(iface.data_size(), 30);

    let mut wide = [0u8; 300];
    let mut narrow = EtherCATInterface::new(&mut wide, 40, MASTER);
    narrow.frame_sent();
    assert!(!narrow.receive_frame(&fits));
}

#[test]
fn receive_step_decides_like_the_loop() {
    let mut buffer = [0u8; 100];
    let mut iface = EtherCATInterface::new(&mut buffer, 1500, MASTER);
    assert_eq!(iface.receive_step(true, TimerState::WouldBlock), Some(RxRes::Complete));
    assert_eq!(iface.receive_step(true, TimerState::Ready), Some(RxRes::Complete));
    assert_eq!(iface.receive_step(true, TimerState::Error), Some(RxRes::Complete));
    assert_eq!(iface.receive_step(false, TimerState::Ready), Some(RxRes::DeviceError));
    iface.frame_sent();
    assert_eq!(iface.receive_step(true, TimerState::WouldBlock), None);
    assert_eq!(iface.receive_step(true, TimerState::Ready), Some(RxRes::Timeout));
    assert_eq!(iface.receive_step(true, TimerState::Error), Some(RxRes::TimerError));
    assert_eq!(iface.receive_step(false, TimerState::WouldBlock), Some(RxRes::DeviceError));
    assert_eq!(iface.receive_step(false, TimerState::Ready), Some(RxRes::DeviceError));
}

#[test]
fn poll_result_maps_every_outcome() {
    assert_eq!(poll_result(true, RxRes::Complete), Ok(()));
    assert_eq!(poll_result(true, RxRes::DeviceError), Err(CommonError::DeviceErrorRx));
    assert_eq!(poll_result(true, RxRes::Timeout), Err(CommonError::ReceiveTimeout));
    assert_eq!(poll_result(true, RxRes::TimerError), Err(CommonError::TimerError));
    assert_eq!(poll_result(false, RxRes::Complete), Err(CommonError::DeviceErrorTx));
    assert_eq!(poll_result(false, RxRes::Timeout), Err(CommonError::DeviceErrorTx));
}

#[test]
fn register_access_is_staged_and_its_reply_taken() {
    let mut buffer = [0xEEu8; 100];
    let mut iface = EtherCATInterface::new(&mut buffer, 1500, MASTER);
    assert_eq!(iface.register_reply().err(), Some(CommonError::PacketDropped));
    iface.read_register(SlaveAddress::StationAddress(0x1001), 0x0130, 6).unwrap();
    iface.write_register(SlaveAddress::SlaveNumber(2), 0x0120, 2, &[4]).unwrap();
    {
        let pdus = iface.peek_command();
        assert_eq!(pdus[0].index, 255);
        assert_eq!(pdus[0].command, Command::new(CommandType::FPRD, 0x1001, 0x0130));
        assert_eq!(pdus[0].data, &[0; 6]);
        assert_eq!(pdus[1].command, Command::new(CommandType::APWR, 0xFFFE, 0x0120));
        assert_eq!(pdus[1].data, &[4, 0]);
    }
    let frame = iface.transmit().remove(0);
    iface.frame_sent();
    iface.clear();
    let mut reply = reply_of(&frame);
    let last = reply.len() - 2;
    reply[last] = 1;
    assert!(iface.receive_frame(&reply));
    {
        let pdu = iface.register_reply().unwrap();
        assert_eq!(pdu.command.c_type, CommandType::APWR);
        assert_eq!(pdu.wkc, 1);
    }
    assert_eq!(iface.data_size(), 0);

    iface.read_register(SlaveAddress::SlaveNumber(0), 0x0130, 2).unwrap();
    assert_eq!(iface.register_reply().err(), Some(CommonError::UnexpectedWKC(0)));
    assert_eq!(
        iface.read_register(SlaveAddress::SlaveNumber(0), 0, 200),
        Err(CommonError::BufferExhausted)
    );
}

#[test]
fn check_wkc_compares() {
    let data = [0u8; 2];
    let mut bytes = vec![0xEE; 14];
    write_pdu(&mut bytes, 0, 1, brd(1), 2, &data, false);
    let (pdu, next) = read_pdu(&bytes, 0, bytes.len()).unwrap();
    assert_eq!(next, 14);
    assert_eq!(check_wkc(&pdu, 0), Ok(()));
    assert_eq!(check_wkc(&pdu, 1), Err(CommonError::UnexpectedWKC(0)));
}

#[test]
fn pdu_codec_round_trip() {
    let mut bytes = vec![0x55u8; 40];
    let command = Command::new(CommandType::ARMW, 0xBEEF, 0x0910);
    write_pdu(&mut bytes, 3, 0x7F, command, 5, &[1, 2, 3, 4, 5], true);
    assert_eq!(&bytes[..3], &[0x55; 3]);
    assert_eq!(
        &bytes[3..20],
        &[0x0D, 0x7F, 0xEF, 0xBE, 0x10, 0x09, 5, 0x80, 0, 0, 1, 2, 3, 4, 5, 0, 0]
    );
    assert_eq!(&bytes[20..], &[0x55; 20]);
    let (pdu, next) = read_pdu(&bytes, 3, 20).unwrap();
    assert_eq!(next, 20);
    assert_eq!((pdu.index, pdu.command, pdu.data, pdu.wkc), (0x7F, command, &[1u8, 2, 3, 4, 5][..], 0));
    assert!(read_pdu(&bytes, 3, 19).is_none());
    assert!(read_pdu(&bytes, 3, 14).is_none());
    assert!(pdus_valid(&bytes, 3, 20));
    assert!(!pdus_valid(&bytes, 3, 21));
    assert!(pdus_valid(&bytes, 7, 7));
    assert_eq!(parse_pdus(&bytes, 3, 40).len(), 1);
}

#[test]
fn pdu_length_uses_eleven_bits() {
    let mut bytes = vec![0xEE; 312];
    let data = vec![0xA5u8; 300];
    write_pdu(&mut bytes, 0, 0, brd(0), 300, &data, false);
    assert_eq!(bytes[6], 44);
    assert_eq!(bytes[7], 1);
    assert_eq!(bytes.len(), 312);
    let (pdu, next) = read_pdu(&bytes, 0, 312).unwrap();
    assert_eq!(next, 312);
    assert_eq!(pdu.data.len(), 300);
}

#[test]
fn commands_address_as_their_target_asks() {
    assert_eq!(get_ap_adp(0), 0);
    assert_eq!(get_ap_adp(1), 0xFFFF);
    assert_eq!(get_ap_adp(5), 0xFFFB);
    assert_eq!(get_ap_adp(0xFFFF), 1);
    assert_eq!(
        Command::new_read(SlaveAddress::StationAddress(7), 0x10),
        Command::new(CommandType::FPRD, 7, 0x10)
    );
    assert_eq!(
        Command::new_read(SlaveAddress::SlaveNumber(1), 0x10),
        Command::new(CommandType::APRD, 0xFFFF, 0x10)
    );
    assert_eq!(
        Command::new_write(SlaveAddress::StationAddress(7), 0x10),
        Command::new(CommandType::FPWR, 7, 0x10)
    );
    assert_eq!(
        Command::new_write(SlaveAddress::SlaveNumber(1), 0x10),
        Command::new(CommandType::APWR, 0xFFFF, 0x10)
    );
    assert_eq!(
        Command::target_read(TargetSlave::Single(9), 0x130),
        Command::new(CommandType::FPRD, 9, 0x130)
    );
    assert_eq!(
        Command::target_read(TargetSlave::All(3), 0x130),
        Command::new(CommandType::BRD, 0, 0x130)
    );
    assert_eq!(
        Command::target_write(TargetSlave::Single(9), 0x120),
        Command::new(CommandType::FPWR, 9, 0x120)
    );
    assert_eq!(
        Command::target_write(TargetSlave::All(3), 0x120),
        Command::new(CommandType::BWR, 0, 0x120)
    );
    assert_eq!(Command::default(), Command::new(CommandType::NOP, 0, 0));
    assert_eq!(SlaveAddress::default(), SlaveAddress::SlaveNumber(0));
    assert_eq!(TargetSlave::default(), TargetSlave::All(0));
}

#[test]
fn frame_is_built_pdu_by_pdu() {
    let mut buffer = [0xEEu8; 64];
    let mut frame = EtherCATFrame::new_unchecked(&mut buffer);
    assert_eq!(frame.len(), 0);
    assert!(frame.as_bytes().is_empty());
    assert!(frame.iter_pdu().is_empty());
    assert!(!frame.add_command(CommandType::BRD, 0, 0, &[], None));
    assert!(frame.init(MASTER));
    assert_eq!(frame.len(), 16);
    assert_eq!(
        frame.as_bytes(),
        &[0xFF, 0xFF, 0xFF, 0xFF, 0xFF, 0xFF, 0x02, 0, 0, 0, 0, 0x01, 0x88, 0xA4, 0, 0x10]
    );
    assert!(frame.add_command(CommandType::FPRD, 0x1001, 0x0130, &[0xAB, 0xCD], Some(4)));
    assert_eq!(frame.len(), 30);
    assert_eq!(
        &frame.as_bytes()[14..],
        &[14, 0x10, 0x04, 4, 0x01, 0x10, 0x30, 0x01, 2, 0, 0, 0, 0xAB, 0xCD, 0, 0]
    );
    assert!(frame.add_command(CommandType::BWR, 0, 0x0120, &[0x11], None));
    assert_eq!(frame.len(), 43);
    assert_eq!(
        &frame.as_bytes()[14..],
        &[
            27, 0x10, // 27 bytes of PDUs
            0x04, 4, 0x01, 0x10, 0x30, 0x01, 2, 0x80, 0, 0, 0xAB, 0xCD, 0, 0, // more follows
            0x08, 0, 0, 0, 0x20, 0x01, 1, 0, 0, 0, 0x11, 0, 0,
        ]
    );
    {
        let pdus = frame.iter_pdu();
        assert_eq!(pdus.len(), 2);
        assert_eq!((pdus[0].index, pdus[0].data, pdus[0].wkc), (4, &[0xAB, 0xCD][..], 0));
        assert_eq!((pdus[1].index, pdus[1].command), (0, Command::new(CommandType::BWR, 0, 0x0120)));
    }
    // 21 bytes are left: room for a payload of nine, not of ten
    assert!(!frame.add_command(CommandType::BRD, 0, 0, &[0; 10], Some(1)));
    assert_eq!(frame.len(), 43);
    assert!(frame.add_command(CommandType::BRD, 0, 0, &[0; 9], Some(1)));
    assert_eq!(frame.len(), 64);
    assert_eq!(frame.as_bytes()[16 + 14 + 7], 0x80);
    assert!(!frame.add_command(CommandType::BRD, 0, 0, &[], Some(2)));
    let bytes = frame.into_buffer();
    assert_eq!(bytes.len(), 64);
    assert_eq!(bytes[14], 48);
    assert!(frame_well_formed(bytes));
    assert_eq!(frame_pdus(bytes).unwrap().len(), 3);

    let mut short = [0u8; 15];
    let mut none = EtherCATFrame::new_unchecked(&mut short);
    assert!(!none.init(MASTER));
    assert_eq!(none.len(), 0);
    assert_eq!(none.into_buffer(), &[0u8; 15]);
}

#[test]
fn frame_length_field_limits_the_pdus() {
    let mut buffer = vec![0u8; 4000];
    let mut frame = EtherCATFrame::new_unchecked(&mut buffer);
    assert!(frame.init(MASTER));
    assert!(!frame.add_command(CommandType::BRD, 0, 0, &vec![0; 2036], None));
    assert!(frame.add_command(CommandType::BRD, 0, 0, &vec![0; 1000], None));
    assert!(!frame.add_command(CommandType::BRD, 0, 0, &vec![0; 1024], None));
    assert!(frame.add_command(CommandType::BRD, 0, 0, &vec![0; 1023], None));
    assert_eq!(frame.len(), 16 + 2047);
    assert_eq!(&frame.as_bytes()[14..16], &[0xFF, 0x17]);
    assert!(!frame.add_command(CommandType::BRD, 0, 0, &[], None));
}

#[test]
fn frames_that_came_in_are_checked() {
    let good = frame_of(&[(1, 3), (2, 0)]);
    assert!(frame_well_formed(&good));
    {
        let pdus = frame_pdus(&good).unwrap();
        assert_eq!(pdus.len(), 2);
        assert_eq!((pdus[0].index, pdus[0].data.len()), (1, 3));
        assert_eq!((pdus[1].index, pdus[1].data.len()), (2, 0));
    }
    let mut padded = good.clone();
    padded.extend_from_slice(&[0; 20]);
    assert!(frame_well_formed(&padded));
    assert_eq!(frame_pdus(&padded).unwrap().len(), 2);
    let mut wrong_type = good.clone();
    wrong_type[13] = 0xA5;
    assert!(!frame_well_formed(&wrong_type));
    assert!(frame_pdus(&wrong_type).is_none());
    assert!(!frame_well_formed(&good[..good.len() - 1]));
    assert!(!frame_well_formed(&[]));
    let empty = frame_of(&[]);
    assert!(frame_well_formed(&empty));
    assert!(frame_pdus(&empty).unwrap().is_empty());
}
