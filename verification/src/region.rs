//! Region codes that restrict which part of the world a query searches.

use vstd::prelude::*;

verus! {

/// Region to restrict the servers a query searches for.
///
/// | `Region`               | Region            | Byte |
/// | ---------------------- | ----------------- | ---- |
/// | `Region::USEast`       | US East coast     | 0x00 |
/// | `Region::USWest`       | US West coast     | 0x01 |
/// | `Region::SouthAmerica` | South America     | 0x02 |
/// | `Region::Europe`       | Europe            | 0x03 |
/// | `Region::Asia`         | Asia              | 0x04 |
/// | `Region::Australia`    | Australia         | 0x05 |
/// | `Region::MiddleEast`   | Middle East       | 0x06 |
/// | `Region::Africa`       | Africa            | 0x07 |
/// | `Region::All`          | Rest of the world | 0xFF |
#[derive(Clone, Copy, Debug, PartialEq, Eq, Structural)]
pub enum Region {
    USEast,
    USWest,
    SouthAmerica,
    Europe,
    Asia,
    Australia,
    MiddleEast,
    Africa,
    /// Rest of the world
    All,
}

/// The byte that was offered as a region code and names no region.
#[derive(Clone, Copy, Debug, PartialEq, Eq, Structural)]
pub struct InvalidRegionCode {
    pub code: u8,
}

/// The wire byte of each region.
pub open spec fn region_code(region: Region) -> u8 {
    match region {
        Region::USEast => 0x00,
        Region::USWest => 0x01,
        Region::SouthAmerica => 0x02,
        Region::Europe => 0x03,
        Region::Asia => 0x04,
        Region::Australia => 0x05,
        Region::MiddleEast => 0x06,
        Region::Africa => 0x07,
        Region::All => 0xFF,
    }
}

/// The region that a wire byte names, if it names one.
pub open spec fn region_of_code(code: u8) -> Option<Region> {
    if code == 0x00 {
        Some(Region::USEast)
    } else if code == 0x01 {
        Some(Region::USWest)
    } else if code == 0x02 {
        Some(Region::SouthAmerica)
    } else if code == 0x03 {
        Some(Region::Europe)
    } else if code == 0x04 {
        Some(Region::Asia)
    } else if code == 0x05 {
        Some(Region::Australia)
    } else if code == 0x06 {
        Some(Region::MiddleEast)
    } else if code == 0x07 {
        Some(Region::Africa)
    } else if code == 0xFF {
        Some(Region::All)
    } else {
        None
    }
}

impl Region {
    /// Return the raw byte code of the region.
    pub fn as_u8(&self) -> (code: u8)
        ensures
            code == region_code(*self),
    {
        match self {
            Region::USEast => 0x00,
            Region::USWest => 0x01,
            Region::SouthAmerica => 0x02,
            Region::Europe => 0x03,
            Region::Asia => 0x04,
            Region::Australia => 0x05,
            Region::MiddleEast => 0x06,
            Region::Africa => 0x07,
            Region::All => 0xFF,
        }
    }

    /// Look a region up by its byte code. The bytes `0x08..=0xFE` name no
    /// region and are handed back in the error.
    pub fn from_u8(code: u8) -> (found: Result<Region, InvalidRegionCode>)
        ensures
            found == match region_of_code(code) {
                Some(region) => Ok::<Region, InvalidRegionCode>(region),
                None => Err::<Region, InvalidRegionCode>(InvalidRegionCode { code }),
            },
            found is Err <==> 0x08 <= code <= 0xFE,
    {
        match code {
            0x00 => Ok(Region::USEast),
            0x01 => Ok(Region::USWest),
            0x02 => Ok(Region::SouthAmerica),
            0x03 => Ok(Region::Europe),
            0x04 => Ok(Region::Asia),
            0x05 => Ok(Region::Australia),
            0x06 => Ok(Region::MiddleEast),
            0x07 => Ok(Region::Africa),
            0xFF => Ok(Region::All),
            _ => Err(InvalidRegionCode { code }),
        }
    }
}

/// The code table is a bijection between the nine regions and the bytes
/// `0x00..=0x07` and `0xFF`: every region is found again from its code, every
/// byte that names a region is the code of that region, and no byte in
/// `0x08..=0xFE` names one.
pub proof fn lemma_region_codes_bijective(region: Region, code: u8)
    ensures
        region_of_code(region_code(region)) == Some(region),
        region_of_code(code) matches Some(r) ==> region_code(r) == code,
        region_of_code(code) is None <==> 0x08 <= code <= 0xFE,
{
}

} // verus!
