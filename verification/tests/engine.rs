use ethercat_master::cyclic::CyclicProcess;
use ethercat_master::cyclic::CyclicUnits;
use ethercat_master::cyclic::EtherCatSystemTime;
use ethercat_master::cyclic::MAX_UNITS;
use ethercat_master::cyclic::ReceivedData;
use ethercat_master::cyclic::Unit;
use ethercat_master::cyclic::UnitHandle;
use ethercat_master::error::CommonError;
use ethercat_master::interface::Command;
use ethercat_master::interface::EtherCATInterface;
use ethercat_master::network::NetworkDescription;
use ethercat_master::packet::CommandType;

const MASTER: [u8; 6] = [0x02, 0, 0, 0, 0, 0x01];
const SLAVE: [u8; 6] = [0x03, 0, 0, 0, 0, 0x01];

/// A unit that sends one payload per start and records what it is handed.
struct Probe {
    id: u8,
    payload: Vec<u8>,
    pending: bool,
    asked: usize,
    replies: Vec<Option<(u16, Vec<u8>)>>,
}

impl Probe {
    fn new(id: u8, len: usize) -> Self {
        Probe { id, payload: vec![id; len], pending: true, asked: 0, replies: vec![] }
    }
}

impl CyclicProcess for Probe {
    type V = ();

    fn next_command(
        &mut self,
        _desc: &mut NetworkDescription,
        _sys_time: EtherCatSystemTime,
    ) -> Option<(Command, &[u8])> {
        if self.pending {
            self.asked += 1;
            Some((Command::new(CommandType::BWR, 0, 0x0100 + self.id as u16), &self.payload))
        } else {
            None
        }
    }

    fn recieve_and_process(
        &mut self,
        recv_data: Option<ReceivedData>,
        _desc: &mut NetworkDescription,
        _sys_time: EtherCatSystemTime,
    ) {
        self.pending = false;
        self.replies.push(recv_data.map(|r| (r.wkc, r.data.to_vec())));
    }
}

/// The frame that comes back for `frame` when every slave adds `wkc` to each
/// PDU, but for the PDUs whose index `lose` holds, which vanish with their
/// frame's length adjusted.
fn reply_to(frame: &[u8], wkc: u16, lose: &[u8]) -> Vec<u8> {
    let mut out: Vec<u8> = frame[..16].to_vec();
    out[6..12].copy_from_slice(&SLAVE);
    let region = frame[14] as usize + 256 * (frame[15] as usize % 8);
    let mut off = 16;
    while off < 16 + region {
        let len = frame[off + 6] as usize + 256 * (frame[off + 7] as usize % 8);
        let total = 12 + len;
        if !lose.contains(&frame[off + 1]) {
            let mut pdu = frame[off..off + total].to_vec();
            pdu[10 + len] = (wkc % 256) as u8;
            pdu[11 + len] = (wkc / 256) as u8;
            out.extend_from_slice(&pdu);
        }
        off += total;
    }
    let kept = out.len() - 16;
    out[14] = (kept % 256) as u8;
    out[15] = (kept / 256) as u8 + 16;
    out
}

/// One cycle as the application runs it: enqueue passes and polls until
/// every unit was asked. Gives the frames that went out.
fn cycle(
    engine: &mut CyclicUnits<Probe>,
    desc: &mut NetworkDescription,
    lose: &[u8],
) -> Result<Vec<Vec<u8>>, CommonError> {
    let mut seen = vec![];
    loop {
        let complete = engine.enqueue_commands(desc, EtherCatSystemTime(0))?;
        let frames = engine.iface().transmit();
        for _ in &frames {
            engine.iface_mut().frame_sent();
        }
        engine.iface_mut().clear();
        for frame in &frames {
            let reply = reply_to(frame, 1, lose);
            engine.iface_mut().receive_frame(&reply);
        }
        seen.extend(frames);
        assert!(engine.can_process());
        engine.process(Ok(()), desc, EtherCatSystemTime(0))?;
        if complete {
            return Ok(seen);
        }
    }
}

#[test]
fn add_unit_gives_places_in_order() {
    let mut buffer = [0u8; 256];
    let iface = EtherCATInterface::new(&mut buffer, 1500, MASTER);
    let mut engine: CyclicUnits<Probe> = CyclicUnits::new(iface);
    assert_eq!(engine.len(), 0);
    for i in 0..3u8 {
        let handle = engine.add_unit(Probe::new(i, 4)).ok().unwrap();
        assert_eq!(handle, UnitHandle(i));
        assert_eq!(handle.index(), i as usize);
    }
    assert_eq!(engine.len(), 3);
    assert_eq!(engine.get_unit(&UnitHandle(1)).unwrap().id, 1);
    assert!(engine.get_unit(&UnitHandle(3)).is_none());
}

#[test]
fn add_unit_hands_the_unit_back_when_full() {
    let mut buffer = [0u8; 256];
    let iface = EtherCATInterface::new(&mut buffer, 1500, MASTER);
    let mut engine: CyclicUnits<Probe> = CyclicUnits::new(iface);
    assert_eq!(MAX_UNITS, 10);
    for i in 0..10u8 {
        assert!(engine.add_unit(Probe::new(i, 1)).is_ok());
    }
    let back = engine.add_unit(Probe::new(99, 1)).err().unwrap();
    assert_eq!(back.id, 99);
    assert_eq!(engine.len(), 10);
    assert_eq!(engine.remove_unit(UnitHandle(4)).unwrap().id, 4);
    assert_eq!(engine.add_unit(Probe::new(42, 1)).ok().unwrap(), UnitHandle(4));
    assert!(engine.add_unit(Probe::new(43, 1)).is_err());
}

#[test]
fn remove_unit_frees_the_place_once() {
    let mut buffer = [0u8; 256];
    let iface = EtherCATInterface::new(&mut buffer, 1500, MASTER);
    let mut engine: CyclicUnits<Probe> = CyclicUnits::new(iface);
    let a = engine.add_unit(Probe::new(10, 1)).ok().unwrap();
    let b = engine.add_unit(Probe::new(11, 1)).ok().unwrap();
    let c = engine.add_unit(Probe::new(12, 1)).ok().unwrap();
    assert_eq!(engine.remove_unit(b).unwrap().id, 11);
    assert!(engine.remove_unit(b).is_none());
    assert!(engine.get_unit(&b).is_none());
    assert!(engine.remove_unit(UnitHandle(200)).is_none());
    assert_eq!(engine.get_unit(&a).unwrap().id, 10);
    assert_eq!(engine.get_unit(&c).unwrap().id, 12);
}

#[test]
fn freed_places_are_given_out_last_freed_first() {
    let mut buffer = [0u8; 256];
    let iface = EtherCATInterface::new(&mut buffer, 1500, MASTER);
    let mut engine: CyclicUnits<Probe> = CyclicUnits::new(iface);
    for i in 0..5u8 {
        engine.add_unit(Probe::new(i, 1)).ok().unwrap();
    }
    assert!(engine.remove_unit(UnitHandle(1)).is_some());
    assert!(engine.remove_unit(UnitHandle(3)).is_some());
    assert!(engine.remove_unit(UnitHandle(0)).is_some());
    assert_eq!(engine.add_unit(Probe::new(20, 1)).ok().unwrap(), UnitHandle(0));
    assert_eq!(engine.add_unit(Probe::new(21, 1)).ok().unwrap(), UnitHandle(3));
    assert_eq!(engine.add_unit(Probe::new(22, 1)).ok().unwrap(), UnitHandle(1));
    assert_eq!(engine.add_unit(Probe::new(23, 1)).ok().unwrap(), UnitHandle(5));
    assert_eq!(engine.len(), 6);
}

#[test]
fn taken_places_are_adds_less_removes() {
    let mut buffer = [0u8; 256];
    let iface = EtherCATInterface::new(&mut buffer, 1500, MASTER);
    let mut engine: CyclicUnits<Probe> = CyclicUnits::new(iface);
    let mut adds = 0;
    let mut removes = 0;
    let mut handles: Vec<UnitHandle> = vec![];
    for step in 0..40u8 {
        if step % 3 == 2 {
            let handle = handles.remove((step as usize * 7) % handles.len());
            if engine.remove_unit(handle).is_some() {
                removes += 1;
            }
            if engine.remove_unit(handle).is_some() {
                removes += 1;
            }
        } else if let Ok(handle) = engine.add_unit(Probe::new(step, 1)) {
            assert!(!handles.contains(&handle));
            handles.push(handle);
            adds += 1;
        }
        let mut taken = 0;
        for place in 0..engine.len() {
            if engine.get_unit(&UnitHandle(place as u8)).is_some() {
                taken += 1;
            }
        }
        assert_eq!(taken, adds - removes);
        for handle in &handles {
            assert!(engine.get_unit(handle).is_some());
        }
    }
}

#[test]
fn unit_from_and_take_round_trip() {
    let slot = Unit::from(Probe::new(5, 2));
    assert_eq!(slot.take().id, 5);
    let free: Unit<Probe> = Unit::default();
    assert!(matches!(free, Unit::NextFreeUnit(UnitHandle(0))));
}

#[test]
fn capacity_back_pressure() {
    let mut buffer = [0u8; 60];
    let iface = EtherCATInterface::new(&mut buffer, 1500, MASTER);
    let mut engine: CyclicUnits<Probe> = CyclicUnits::new(iface);
    let mut desc = NetworkDescription::new();
    let u1 = engine.add_unit(Probe::new(1, 20)).ok().unwrap();
    let u2 = engine.add_unit(Probe::new(2, 40)).ok().unwrap();

    assert_eq!(engine.enqueue_commands(&mut desc, EtherCatSystemTime(0)), Ok(false));
    assert_eq!(engine.iface().data_size(), 32);
    let first = engine.iface().transmit();
    assert_eq!(first.len(), 1);
    assert_eq!(first[0].len(), 16 + 32);
    engine.iface_mut().frame_sent();
    engine.iface_mut().clear();
    assert!(engine.iface_mut().receive_frame(&reply_to(&first[0], 1, &[])));
    assert!(engine.can_process());
    assert_eq!(engine.process(Ok(()), &mut desc, EtherCatSystemTime(0)), Ok(()));
    assert_eq!(engine.get_unit(&u1).unwrap().replies, vec![Some((1, vec![1u8; 20]))]);
    assert!(engine.get_unit(&u2).unwrap().replies.is_empty());
    assert_eq!(engine.get_unit(&u2).unwrap().asked, 1);

    assert_eq!(engine.enqueue_commands(&mut desc, EtherCatSystemTime(0)), Ok(true));
    assert_eq!(engine.iface().data_size(), 52);
    let second = engine.iface().transmit();
    assert_eq!(second.len(), 1);
    engine.iface_mut().frame_sent();
    engine.iface_mut().clear();
    assert!(engine.iface_mut().receive_frame(&reply_to(&second[0], 1, &[])));
    assert_eq!(engine.process(Ok(()), &mut desc, EtherCatSystemTime(0)), Ok(()));
    assert_eq!(engine.get_unit(&u2).unwrap().replies, vec![Some((1, vec![2u8; 40]))]);
    assert_eq!(engine.get_unit(&u2).unwrap().asked, 2);
    assert_eq!(engine.get_unit(&u1).unwrap().replies.len(), 1);
}

#[test]
fn capacity_back_pressure_through_one_cycle() {
    let mut buffer = [0u8; 60];
    let iface = EtherCATInterface::new(&mut buffer, 1500, MASTER);
    let mut engine: CyclicUnits<Probe> = CyclicUnits::new(iface);
    let mut desc = NetworkDescription::new();
    let u1 = engine.add_unit(Probe::new(1, 20)).ok().unwrap();
    let u2 = engine.add_unit(Probe::new(2, 40)).ok().unwrap();
    let frames = cycle(&mut engine, &mut desc, &[]).unwrap();
    assert_eq!(frames.len(), 2);
    assert_eq!(frames[0][16 + 1], 0);
    assert_eq!(frames[1][16 + 1], 1);
    assert_eq!(engine.get_unit(&u1).unwrap().replies.len(), 1);
    assert_eq!(engine.get_unit(&u2).unwrap().replies.len(), 1);
}

#[test]
fn lost_reply() {
    let mut buffer = [0u8; 256];
    let iface = EtherCATInterface::new(&mut buffer, 1500, MASTER);
    let mut engine: CyclicUnits<Probe> = CyclicUnits::new(iface);
    let mut desc = NetworkDescription::new();
    let u0 = engine.add_unit(Probe::new(7, 3)).ok().unwrap();
    let u1 = engine.add_unit(Probe::new(8, 5)).ok().unwrap();
    cycle(&mut engine, &mut desc, &[0]).unwrap();
    assert_eq!(engine.get_unit(&u0).unwrap().replies, vec![None]);
    assert_eq!(engine.get_unit(&u1).unwrap().replies, vec![Some((1, vec![8u8; 5]))]);
}

#[test]
fn every_sent_unit_hears_once() {
    let mut buffer = [0u8; 512];
    let iface = EtherCATInterface::new(&mut buffer, 1500, MASTER);
    let mut engine: CyclicUnits<Probe> = CyclicUnits::new(iface);
    let mut desc = NetworkDescription::new();
    for i in 0..6u8 {
        engine.add_unit(Probe::new(i, 2 + i as usize)).ok().unwrap();
    }
    engine.remove_unit(UnitHandle(2)).unwrap();
    engine.get_unit(&UnitHandle(4)).unwrap().pending = false;
    cycle(&mut engine, &mut desc, &[1, 5]).unwrap();
    for place in 0..6u8 {
        match engine.get_unit(&UnitHandle(place)) {
            None => assert_eq!(place, 2),
            Some(unit) => {
                let expected: Vec<Option<(u16, Vec<u8>)>> = match place {
                    4 => vec![],
                    1 | 5 => vec![None],
                    _ => vec![Some((1, vec![place; 2 + place as usize]))],
                };
                assert_eq!(unit.replies, expected);
            },
        }
    }
}

#[test]
fn reply_to_a_removed_unit_is_dropped() {
    let mut buffer = [0u8; 256];
    let iface = EtherCATInterface::new(&mut buffer, 1500, MASTER);
    let mut engine: CyclicUnits<Probe> = CyclicUnits::new(iface);
    let mut desc = NetworkDescription::new();
    let u0 = engine.add_unit(Probe::new(1, 3)).ok().unwrap();
    let u1 = engine.add_unit(Probe::new(2, 3)).ok().unwrap();
    assert_eq!(engine.enqueue_commands(&mut desc, EtherCatSystemTime(0)), Ok(true));
    let frames = engine.iface().transmit();
    engine.iface_mut().frame_sent();
    engine.iface_mut().clear();
    assert!(engine.remove_unit(u0).is_some());
    assert!(engine.iface_mut().receive_frame(&reply_to(&frames[0], 1, &[])));
    assert!(engine.can_process());
    assert_eq!(engine.process(Ok(()), &mut desc, EtherCatSystemTime(0)), Ok(()));
    assert_eq!(engine.get_unit(&u1).unwrap().replies.len(), 1);
    assert_eq!(engine.iface().data_size(), 0);
}

#[test]
fn reply_for_an_unsent_unit_cannot_be_processed() {
    let mut buffer = [0u8; 256];
    let iface = EtherCATInterface::new(&mut buffer, 1500, MASTER);
    let mut engine: CyclicUnits<Probe> = CyclicUnits::new(iface);
    let mut desc = NetworkDescription::new();
    let u0 = engine.add_unit(Probe::new(1, 3)).ok().unwrap();
    assert_eq!(engine.enqueue_commands(&mut desc, EtherCatSystemTime(0)), Ok(true));
    let frames = engine.iface().transmit();
    engine.iface_mut().frame_sent();
    engine.iface_mut().clear();
    assert!(engine.remove_unit(u0).is_some());
    assert_eq!(engine.add_unit(Probe::new(9, 1)).ok().unwrap(), u0);
    assert!(engine.iface_mut().receive_frame(&reply_to(&frames[0], 1, &[])));
    assert!(!engine.can_process());
}

#[test]
fn device_failure_stops_the_dispatch() {
    let mut buffer = [0u8; 256];
    let iface = EtherCATInterface::new(&mut buffer, 1500, MASTER);
    let mut engine: CyclicUnits<Probe> = CyclicUnits::new(iface);
    let mut desc = NetworkDescription::new();
    let u0 = engine.add_unit(Probe::new(1, 3)).ok().unwrap();
    assert_eq!(engine.enqueue_commands(&mut desc, EtherCatSystemTime(0)), Ok(true));
    assert_eq!(
        engine.process(Err(CommonError::DeviceErrorTx), &mut desc, EtherCatSystemTime(0)),
        Err(CommonError::DeviceErrorTx)
    );
    assert_eq!(
        engine.process(Err(CommonError::DeviceErrorRx), &mut desc, EtherCatSystemTime(0)),
        Err(CommonError::DeviceErrorRx)
    );
    assert!(engine.get_unit(&u0).unwrap().replies.is_empty());
    assert_eq!(engine.iface().data_size(), 15);
    assert_eq!(engine.enqueue_commands(&mut desc, EtherCatSystemTime(0)), Ok(true));
    assert_eq!(engine.get_unit(&u0).unwrap().asked, 1);
}

#[test]
fn timeout_tells_the_units_that_their_reply_is_lost() {
    let mut buffer = [0u8; 256];
    let iface = EtherCATInterface::new(&mut buffer, 1500, MASTER);
    let mut engine: CyclicUnits<Probe> = CyclicUnits::new(iface);
    let mut desc = NetworkDescription::new();
    let u0 = engine.add_unit(Probe::new(1, 3)).ok().unwrap();
    assert_eq!(engine.enqueue_commands(&mut desc, EtherCatSystemTime(0)), Ok(true));
    let _ = engine.iface().transmit();
    engine.iface_mut().frame_sent();
    engine.iface_mut().clear();
    assert!(engine.can_process());
    assert_eq!(
        engine.process(Err(CommonError::ReceiveTimeout), &mut desc, EtherCatSystemTime(0)),
        Err(CommonError::ReceiveTimeout)
    );
    assert_eq!(engine.get_unit(&u0).unwrap().replies, vec![None]);
    assert_eq!(engine.iface().data_size(), 0);
    // the mark is cleared: the unit is asked again in the next pass
    engine.get_unit(&u0).unwrap().pending = true;
    assert_eq!(engine.enqueue_commands(&mut desc, EtherCatSystemTime(0)), Ok(true));
    assert_eq!(engine.get_unit(&u0).unwrap().asked, 2);
}

#[test]
fn timeout_hands_out_the_replies_that_came() {
    let mut buffer = [0u8; 256];
    let iface = EtherCATInterface::new(&mut buffer, 40, MASTER);
    let mut engine: CyclicUnits<Probe> = CyclicUnits::new(iface);
    let mut desc = NetworkDescription::new();
    let u0 = engine.add_unit(Probe::new(1, 10)).ok().unwrap();
    let u1 = engine.add_unit(Probe::new(2, 10)).ok().unwrap();
    assert_eq!(engine.enqueue_commands(&mut desc, EtherCatSystemTime(0)), Ok(true));
    let frames = engine.iface().transmit();
    assert_eq!(frames.len(), 2);
    engine.iface_mut().frame_sent();
    engine.iface_mut().frame_sent();
    engine.iface_mut().clear();
    assert!(engine.iface_mut().receive_frame(&reply_to(&frames[1], 1, &[])));
    assert!(engine.iface().awaiting_frames());
    assert!(engine.can_process());
    assert_eq!(
        engine.process(Err(CommonError::ReceiveTimeout), &mut desc, EtherCatSystemTime(0)),
        Err(CommonError::ReceiveTimeout)
    );
    assert_eq!(engine.get_unit(&u0).unwrap().replies, vec![None]);
    assert_eq!(engine.get_unit(&u1).unwrap().replies, vec![Some((1, vec![2u8; 10]))]);
}

#[test]
fn command_that_finds_no_room_behind_others_is_deferred() {
    let mut buffer = [0u8; 60];
    let iface = EtherCATInterface::new(&mut buffer, 1500, MASTER);
    let mut engine: CyclicUnits<Probe> = CyclicUnits::new(iface);
    let mut desc = NetworkDescription::new();
    let u0 = engine.add_unit(Probe::new(1, 20)).ok().unwrap();
    let u1 = engine.add_unit(Probe::new(2, 22)).ok().unwrap();
    // after the first PDU 24 bytes are reported free, but a PDU of 22 takes 34
    assert_eq!(engine.enqueue_commands(&mut desc, EtherCatSystemTime(0)), Ok(false));
    assert_eq!(engine.iface().data_size(), 32);
    assert_eq!(engine.iface().remaing_capacity(), 24);
    assert_eq!(engine.get_unit(&u1).unwrap().asked, 1);
    let frames = cycle(&mut engine, &mut desc, &[]).unwrap();
    assert_eq!(frames.len(), 2);
    assert_eq!(frames[0].len(), 16 + 32);
    assert_eq!(frames[1].len(), 16 + 34);
    assert_eq!(engine.get_unit(&u0).unwrap().replies, vec![Some((1, vec![1u8; 20]))]);
    assert_eq!(engine.get_unit(&u1).unwrap().replies, vec![Some((1, vec![2u8; 22]))]);
}

#[test]
fn command_that_the_interface_refuses_fails_the_pass() {
    let mut buffer = [0u8; 40];
    let iface = EtherCATInterface::new(&mut buffer, 1500, MASTER);
    let mut engine: CyclicUnits<Probe> = CyclicUnits::new(iface);
    let mut desc = NetworkDescription::new();
    // 36 bytes are reported free for a payload, but the PDU header needs ten.
    let u0 = engine.add_unit(Probe::new(1, 30)).ok().unwrap();
    assert_eq!(engine.iface().remaing_capacity(), 36);
    assert_eq!(
        engine.enqueue_commands(&mut desc, EtherCatSystemTime(0)),
        Err(CommonError::BufferExhausted)
    );
    assert_eq!(engine.iface().data_size(), 0);
    assert!(engine.get_unit(&u0).unwrap().replies.is_empty());
}
