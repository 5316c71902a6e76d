//! Capture-side processing of encoder output. The encoder hands back a raw
//! byte stream in which each unit is introduced by a four-byte start code;
//! the scan splits the stream into units for the emit queue. The capture
//! state also decides when the encoder must be recreated: whenever the
//! subscriber count reported by the emit side exceeds the count it has
//! seen, so a new subscriber receives fresh decoder parameters.

use crate::codec::push_range;
use vstd::prelude::*;

verus! {

/// One pixel of a raw frame, split out of the byte stream.
#[derive(Clone, Copy, PartialEq, Eq, Structural, Debug)]
pub struct RgbaPixel {
    pub red: u8,
    pub green: u8,
    pub blue: u8,
    pub alpha: u8,
}

/// True where the four bytes at `pos` are the unit start code.
pub open spec fn spec_is_start_at(data: Seq<u8>, pos: int) -> bool {
    &&& 0 <= pos
    &&& pos + 4 <= data.len()
    &&& data[pos] == 0x00
    &&& data[pos + 1] == 0x00
    &&& data[pos + 2] == 0x00
    &&& data[pos + 3] == 0x01
}

/// The units the scan emits from position `pos` on, with `start` the
/// position of the last start code seen. A unit between two start codes
/// is emitted only when it is longer than the start code itself; the
/// trailing unit is emitted whenever it is nonempty.
pub open spec fn spec_scan(data: Seq<u8>, pos: int, start: Option<int>) -> Seq<Seq<u8>>
    recommends
        0 <= pos,
    decreases data.len() - pos,
{
    if 0 <= pos && pos + 4 <= data.len() {
        if spec_is_start_at(data, pos) {
            let emitted = match start {
                Option::Some(s) => if s + 4 < pos {
                    seq![data.subrange(s, pos)]
                } else {
                    Seq::empty()
                },
                Option::None => Seq::empty(),
            };
            emitted + spec_scan(data, pos + 1, Option::Some(pos))
        } else {
            spec_scan(data, pos + 1, start)
        }
    } else {
        match start {
            Option::Some(s) => if 0 <= s < data.len() {
                seq![data.skip(s)]
            } else {
                Seq::empty()
            },
            Option::None => Seq::empty(),
        }
    }
}

/// The unit sequence of a whole encoder output buffer.
pub open spec fn spec_nal_units(data: Seq<u8>) -> Seq<Seq<u8>> {
    spec_scan(data, 0, Option::None)
}

/// Capture-side state: the subscriber count last acted upon.
pub struct ScreenCapture {
    pub client_number: usize,
}

impl ScreenCapture {
    pub fn new() -> (r: ScreenCapture)
        ensures
            r.client_number == 0,
    {
        ScreenCapture { client_number: 0 }
    }

    /// True iff `data` is exactly the four-byte unit start code.
    pub fn is_start_code(data: &[u8]) -> (r: bool)
        ensures
            r == (data@ == seq![0x00u8, 0x00u8, 0x00u8, 0x01u8]),
    {
        if data.len() == 4 && data[0] == 0x00 && data[1] == 0x00 && data[2] == 0x00 && data[3]
            == 0x01 {
            proof {
                assert(data@ =~= seq![0x00u8, 0x00u8, 0x00u8, 0x01u8]);
            }
            true
        } else {
            false
        }
    }

    /// True iff a subscriber count reported by the emit side asks for a
    /// fresh encoder: only a count above the one already seen does.
    pub fn needs_encoder_restart(&self, reported: usize) -> (r: bool)
        ensures
            r == (reported > self.client_number),
    {
        reported > self.client_number
    }

    /// Splits one encoder output buffer into units at the start codes.
    /// Bytes before the first start code are dropped; a unit between two
    /// start codes is kept only when longer than the start code itself,
    /// and the trailing unit is kept whenever it is nonempty.
    pub fn process_nals(data: &[u8]) -> (units: Vec<Vec<u8>>)
        requires
            data@.len() + 4 <= usize::MAX,
        ensures
            units@.map_values(|u: Vec<u8>| u@) == spec_nal_units(data@),
    {
        let n = data.len();
        let mut units: Vec<Vec<u8>> = Vec::new();
        let mut pos: usize = 0;
        let mut nal_start: Option<usize> = None;
        proof {
            assert(units@.map_values(|u: Vec<u8>| u@) + spec_scan(data@, 0, Option::None)
                =~= spec_scan(data@, 0, Option::None));
        }
        while pos + 4 <= n
            invariant
                n == data@.len(),
                n + 4 <= usize::MAX,
                pos <= n,
                nal_start matches Some(s) ==> s < pos,
                spec_nal_units(data@) == units@.map_values(|u: Vec<u8>| u@) + spec_scan(
                    data@,
                    pos as int,
                    match nal_start {
                        Option::Some(s) => Option::Some(s as int),
                        Option::None => Option::None,
                    },
                ),
            decreases n - pos,
        {
            if Self::is_start_code(&data[pos..pos + 4]) {
                proof {
                    assert(data@.subrange(pos as int, pos + 4) == seq![
                        0x00u8,
                        0x00u8,
                        0x00u8,
                        0x01u8,
                    ]);
                    assert(spec_is_start_at(data@, pos as int));
                }
                match nal_start {
                    Some(s) => {
                        if s + 4 < pos {
                            let mut unit: Vec<u8> = Vec::new();
                            push_range(&mut unit, data, s, pos);
                            let ghost pre = units@;
                            let ghost unit_view = unit@;
                            units.push(unit);
                            proof {
                                assert(units@.map_values(|u: Vec<u8>| u@) =~= pre.map_values(
                                    |u: Vec<u8>| u@,
                                ).push(unit_view));
                                assert(unit_view == data@.subrange(s as int, pos as int));
                                assert(pre.map_values(|u: Vec<u8>| u@).push(unit_view) + spec_scan(
                                    data@,
                                    pos + 1,
                                    Option::Some(pos as int),
                                ) =~= pre.map_values(|u: Vec<u8>| u@) + (seq![unit_view]
                                    + spec_scan(data@, pos + 1, Option::Some(pos as int))));
                            }
                        } else {
                            proof {
                                assert(Seq::<Seq<u8>>::empty() + spec_scan(
                                    data@,
                                    pos + 1,
                                    Option::Some(pos as int),
                                ) =~= spec_scan(data@, pos + 1, Option::Some(pos as int)));
                            }
                        }
                    },
                    None => {
                        proof {
                            assert(Seq::<Seq<u8>>::empty() + spec_scan(
                                data@,
                                pos + 1,
                                Option::Some(pos as int),
                            ) =~= spec_scan(data@, pos + 1, Option::Some(pos as int)));
                        }
                    },
                }
                nal_start = Some(pos);
            } else {
                proof {
                    if spec_is_start_at(data@, pos as int) {
                        assert(data@.subrange(pos as int, pos + 4) =~= seq![
                            0x00u8,
                            0x00u8,
                            0x00u8,
                            0x01u8,
                        ]);
                    }
                }
            }
            pos += 1;
        }
        match nal_start {
            Some(s) => {
                let mut unit: Vec<u8> = Vec::new();
                push_range(&mut unit, data, s, n);
                let ghost pre = units@;
                let ghost unit_view = unit@;
                units.push(unit);
                proof {
                    assert(unit_view =~= data@.skip(s as int));
                    assert(units@.map_values(|u: Vec<u8>| u@) =~= pre.map_values(
                        |u: Vec<u8>| u@,
                    ).push(unit_view));
                    assert(pre.map_values(|u: Vec<u8>| u@).push(unit_view) =~= pre.map_values(
                        |u: Vec<u8>| u@,
                    ) + seq![unit_view]);
                }
            },
            None => {
                proof {
                    assert(units@.map_values(|u: Vec<u8>| u@) + Seq::<Seq<u8>>::empty()
                        =~= units@.map_values(|u: Vec<u8>| u@));
                }
            },
        }
        units
    }

    /// Regroups a raw frame buffer, left to right, into pixels; a buffer
    /// whose length is not a multiple of four carries no whole pixel
    /// sequence and is rejected.
    pub fn get_rgba_from_frame_buffer(raw: &[u8]) -> (r: Result<Vec<RgbaPixel>, String>)
        ensures
            r is Ok <==> raw@.len() % 4 == 0,
            r matches Ok(pixels) ==> pixels@.len() == raw@.len() / 4 && (forall|i: int|
                0 <= i < pixels@.len() ==> #[trigger] pixels@[i] == (RgbaPixel {
                    red: raw@[4 * i],
                    green: raw@[4 * i + 1],
                    blue: raw@[4 * i + 2],
                    alpha: raw@[4 * i + 3],
                })),
    {
        let n = raw.len();
        if n % 4 != 0 {
            return Err("Wrong raw_data length".to_owned());
        }
        let mut pixels: Vec<RgbaPixel> = Vec::new();
        let mut i: usize = 0;
        while i < n
            invariant
                n == raw@.len(),
                n % 4 == 0,
                i % 4 == 0,
                i <= n,
                pixels@.len() == i / 4,
                forall|j: int| 0 <= j < pixels@.len() ==> #[trigger] pixels@[j] == (RgbaPixel {
                    red: raw@[4 * j],
                    green: raw@[4 * j + 1],
                    blue: raw@[4 * j + 2],
                    alpha: raw@[4 * j + 3],
                }),
            decreases n - i,
        {
            proof {
                assert((n - i) % 4 == 0);
                assert(n - i >= 4);
            }
            let pixel = RgbaPixel {
                red: raw[i],
                green: raw[i + 1],
                blue: raw[i + 2],
                alpha: raw[i + 3],
            };
            pixels.push(pixel);
            i += 4;
        }
        Ok(pixels)
    }
}

} // verus!
