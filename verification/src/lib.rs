//! Verified decision logic for a paged-document engine: page geometry and pagination, capture
//! qualification, controlled document time, task and microtask scheduling, and the retained
//! bookkeeping around them.
pub mod au;
pub mod canonical;
pub mod clock;
pub mod controlled_capture;
pub mod document_time;
pub mod dyadic;
pub mod fx;
pub mod generation_capture;
pub mod ids;
pub mod largest_contentful_paint;
pub mod layout_api;
pub mod layout_debug;
pub mod microtask;
pub mod pages;
pub mod retained_canvas;
pub mod routed_promise;
pub mod table;
pub mod task_queue;
pub mod timers;
