//! A page-granularity allocator over a contiguous address range, tracking
//! page state in a fixed-capacity bitmap.

mod align;
mod bits;
mod page_alloc;

pub use align::{align_down, align_up, exact_log2, is_aligned};
pub use bits::BITMAP_CAP;
pub use page_alloc::{AllocError, AllocResult, BitmapPageAllocator, MAX_ALIGN};
