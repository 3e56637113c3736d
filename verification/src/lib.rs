//! Data layout, batching and dataset logic of a small multilayer perceptron:
//! where every parameter of the flat parameter array belongs, how the
//! activations of all layers share one arena, how batches lay out their
//! samples, and how datasets hand out batches epoch by epoch.
mod activations;
mod archivist;
mod batch;
mod csv;
mod data;
mod helpers;
mod io;
mod net_properties;
mod owned_data;
mod owned_dataset;
mod owned_evaluation;
mod random;
mod signals;
mod swap_buffer;

pub use activations::Activation;
pub use archivist::{FileSystemArchivist, FileSystemMetadata};
pub use batch::{Batch, Inference, Training};
pub use csv::{
    csv_cells, csv_table, fields, is_white_space, is_whitespace, lemma_trim_strips_white_space, split,
    split_chars, table,
    table_view, trim, trim_chars, trim_end, trim_start,
};
pub use data::{assert_dimension_validity, column_len, de_interleave, dimensions_valid};
pub use helpers::{cumulative_sum, seq_sum};
pub use io::Entity;
pub use net_properties::{
    is_connection, layout_fits, lemma_offsets_consecutive, lemma_offsets_monotone,
    lemma_seq_max_bound, lemma_weight_position_bounds, lemma_weight_position_injective,
    lemma_weight_position_onto, parameter_count, seq_max, transition_counts, transition_offset,
    transition_size, valid_layout, weight_position, NetProperties,
};
pub use owned_data::{flatten_columns, rows_view, OwnedData};
pub use owned_dataset::{
    all_observations, drawn_batch_data, lemma_drawn_batch_layout, lemma_random_epoch, lemma_sequential_batches_tile,
    lemma_sequential_prefix, sequential_count, sequential_prefix, BatchMode, BatchProvider,
    OwnedDataset,
};
pub use owned_evaluation::OwnedEvaluation;
pub use signals::{
    appended_layout, layer_start, layer_values, lemma_slots_per_layer, lemma_write_then_read,
    signals_fit, write_layer,
    Signals,
};
pub use swap_buffer::SwapBuffer;
