//! One whole run: from the header and the rows of a table to the report.

use vstd::prelude::*;
use crate::data::{is_encoding, load_data, load_error, selection, Cell, Dataset};
use crate::error::AnalysisError;
use crate::graph::{
    analyze_graph, build_graph, can_build, is_analysis, is_similarity_graph, pair_count, Analysis,
};
use crate::store::{graph_edges, graph_nodes, SimilarityGraph};

verus! {

/// Everything that one run over a table yields.
pub struct Report {
    pub dataset: Dataset,
    pub graph: SimilarityGraph,
    pub analysis: Analysis,
}

/// Why a table cannot be analyzed, if it cannot: it cannot be loaded; it has
/// more rows than the graph can give nodes and edges to; or it has no rows,
/// so that the graph has no node to start from.
pub open spec fn run_error(records: Seq<Vec<Cell>>, width: nat, choice: usize) -> Option<
    AnalysisError,
> {
    if load_error(records, width, choice) is Some {
        load_error(records, width, choice)
    } else if records.len() > u32::MAX || pair_count(records.len()) > u32::MAX {
        Some(AnalysisError::CapacityExceeded)
    } else if records.len() == 0 {
        Some(AnalysisError::InvalidNode)
    } else {
        None
    }
}

/// One whole run: loads the table, builds the similarity graph of its
/// feature matrix, and analyzes the graph.
pub fn analyze_records(headers: Vec<String>, records: Vec<Vec<Cell>>, choice: usize) -> (result:
    Result<Report, AnalysisError>)
    ensures
        match result {
            Ok(report) => {
                &&& run_error(records@, headers.len() as nat, choice) is None
                &&& report.dataset.headers == headers
                &&& report.dataset.records == records
                &&& is_encoding(
                    &report.dataset.data,
                    records@,
                    selection(choice, headers.len() as nat),
                )
                &&& is_similarity_graph(
                    graph_nodes(&report.graph),
                    graph_edges(&report.graph),
                    report.dataset.data@,
                )
                &&& is_analysis(
                    graph_nodes(&report.graph).len(),
                    graph_edges(&report.graph),
                    headers@,
                    records@,
                    report.analysis,
                )
            },
            Err(e) => run_error(records@, headers.len() as nat, choice) == Some(e),
        },
{
    let dataset = match load_data(headers, records, choice) {
        Ok(dataset) => dataset,
        Err(e) => {
            return Err(e);
        },
    };
    if !can_build(&dataset.data) {
        return Err(AnalysisError::CapacityExceeded);
    }
    let graph = build_graph(&dataset.data);
    match analyze_graph(&graph, &dataset) {
        Ok(analysis) => Ok(Report { dataset, graph, analysis }),
        Err(e) => Err(e),
    }
}

} // verus!
