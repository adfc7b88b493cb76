//! What is known of the remote resource before its ranges are planned.

use crate::error::DownloadError;
use crate::header::{accepts_byte_ranges, decimal_value, is_numeral, names_bytes_unit, parse_decimal};
use crate::range::{plan_ranges, planned_ranges, tiles, ByteRange};
use vstd::prelude::*;

verus! {

/// The remote resource as the metadata probe found it. `total_size` is
/// absent where the server reported no usable length; `supports_range` says
/// whether the server announced that it serves byte ranges.
pub struct ResourceDescriptor {
    pub url: String,
    pub total_size: Option<u64>,
    pub supports_range: bool,
}

/// A descriptor as contracts see it.
pub struct DescriptorView {
    pub url: Seq<char>,
    pub total_size: Option<u64>,
    pub supports_range: bool,
}

impl View for ResourceDescriptor {
    type V = DescriptorView;

    open spec fn view(&self) -> DescriptorView {
        DescriptorView {
            url: self.url@,
            total_size: self.total_size,
            supports_range: self.supports_range,
        }
    }
}

/// The length that a `Content-Length` value reports: the number it denotes
/// when it is a decimal numeral that fits a `u64`, and none otherwise or
/// when the header is missing.
pub open spec fn reported_length(content_length: Option<Seq<u8>>) -> Option<u64> {
    match content_length {
        Some(text) => if is_numeral(text) && decimal_value(text) <= u64::MAX {
            Some(decimal_value(text) as u64)
        } else {
            None
        },
        None => None,
    }
}

/// Whether an `Accept-Ranges` value announces byte ranges; a missing header
/// announces nothing.
pub open spec fn announces_ranges(accept_ranges: Option<Seq<u8>>) -> bool {
    match accept_ranges {
        Some(text) => names_bytes_unit(text),
        None => false,
    }
}

/// Whether `ranges` is a plan that a session may run for a resource of the
/// given length: a tiling of a known length, or the one unbounded range for
/// an unknown one.
pub open spec fn valid_plan(ranges: Seq<ByteRange>, total_size: Option<u64>) -> bool {
    match total_size {
        Some(total) => tiles(ranges, total as int),
        None => ranges == seq![ByteRange::unbounded()],
    }
}

impl DescriptorView {
    /// The descriptor that a probe's headers give.
    pub open spec fn from_probe(
        url: Seq<char>,
        content_length: Option<Seq<u8>>,
        accept_ranges: Option<Seq<u8>>,
    ) -> DescriptorView {
        DescriptorView {
            url,
            total_size: reported_length(content_length),
            supports_range: announces_ranges(accept_ranges),
        }
    }

    /// The descriptor of a resource whose probe failed: nothing is known of
    /// it, so it is fetched as one stream.
    pub open spec fn single_stream(url: Seq<char>) -> DescriptorView {
        DescriptorView { url, total_size: None, supports_range: false }
    }

    /// The ranges planned for this resource. A server that announced no
    /// byte ranges is asked for the whole resource by one fetch.
    pub open spec fn plan(self, thread_count: u8) -> Seq<ByteRange> {
        if self.supports_range {
            planned_ranges(self.total_size, thread_count)
        } else {
            planned_ranges(self.total_size, 1)
        }
    }
}

/// Every plan of a descriptor is valid for its length.
pub proof fn lemma_plan_valid(descriptor: DescriptorView, thread_count: u8)
    ensures
        valid_plan(descriptor.plan(thread_count), descriptor.total_size),
{
    match descriptor.total_size {
        Some(total) => {
            crate::range::lemma_plan_tiles(total, thread_count);
            crate::range::lemma_plan_tiles(total, 1);
        },
        None => {},
    }
}

/// The length that the probe found, from the value of `Content-Length` as
/// the server sent it. A missing header, and a value that is no decimal
/// numeral or does not fit a `u64`, is a failure of the probe.
pub fn probed_length(content_length: Option<&[u8]>) -> (length: Result<u64, DownloadError>)
    ensures
        match length {
            Ok(total) => Some(total) == reported_length(
                match content_length {
                    Some(text) => Some(text@),
                    None => None,
                },
            ),
            Err(error) => error == DownloadError::Metadata && reported_length(
                match content_length {
                    Some(text) => Some(text@),
                    None => None,
                },
            ) is None,
        },
{
    let parsed = match content_length {
        Some(text) => parse_decimal(text),
        None => None,
    };
    match parsed {
        Some(total) => Ok(total),
        None => Err(DownloadError::Metadata),
    }
}

impl ResourceDescriptor {
    /// Reads the headers of a successful metadata probe: the value of
    /// `Content-Length` and that of `Accept-Ranges`, each as the server sent
    /// it, or `None` where the header was missing. A probe that found no
    /// length is made up for at once: the descriptor has no length, and the
    /// resource is fetched as one stream.
    pub fn from_probe(
        url: String,
        content_length: Option<&[u8]>,
        accept_ranges: Option<&[u8]>,
    ) -> (descriptor: ResourceDescriptor)
        ensures
            descriptor@ == DescriptorView::from_probe(
                url@,
                match content_length {
                    Some(text) => Some(text@),
                    None => None,
                },
                match accept_ranges {
                    Some(text) => Some(text@),
                    None => None,
                },
            ),
    {
        let total_size = match probed_length(content_length) {
            Ok(total) => Some(total),
            Err(_) => None,
        };
        let supports_range = match accept_ranges {
            Some(text) => accepts_byte_ranges(text),
            None => false,
        };
        ResourceDescriptor { url, total_size, supports_range }
    }

    /// The descriptor to go on with when the metadata probe failed.
    pub fn single_stream(url: String) -> (descriptor: ResourceDescriptor)
        ensures
            descriptor@ == DescriptorView::single_stream(url@),
    {
        ResourceDescriptor { url, total_size: None, supports_range: false }
    }

    /// Plans the ranges of this resource for `thread_count` fetches.
    pub fn plan(&self, thread_count: u8) -> (ranges: Vec<ByteRange>)
        ensures
            ranges@ == self@.plan(thread_count),
            valid_plan(ranges@, self.total_size),
    {
        proof {
            lemma_plan_valid(self@, thread_count);
        }
        if self.supports_range {
            plan_ranges(self.total_size, thread_count)
        } else {
            plan_ranges(self.total_size, 1)
        }
    }
}

} // verus!
